//! The GOOSE subscriber.

use iec61850_rs::common::{Instant, TimeQuality, UtcTime};
use iec61850_rs::proto::data::Value;
use iec61850_rs::proto::ethernet::{FrameHeader, MacAddr, ETHERTYPE_GOOSE, RESERVED1_SIMULATION};
use iec61850_rs::proto::goose::{
    GoosePdu, Invalid, SimulationMode, Subscriber, SubscriberConfig, SubscriberEvent,
    SubscriptionKey,
};

const TAL_MS: u32 = 100;

fn frame(st: u32, sq: u32, sim: bool, values: Vec<Value>) -> Vec<u8> {
    frame_with(st, sq, sim, 1, values)
}

fn frame_at(st: u32, sq: u32, secs: u32, nanos: u32) -> Vec<u8> {
    build(st, sq, false, 1, vec![], UtcTime::from_unix(secs, nanos, TimeQuality::synchronized()))
}

fn frame_with(st: u32, sq: u32, sim: bool, conf_rev: u32, values: Vec<Value>) -> Vec<u8> {
    build(st, sq, sim, conf_rev, values, UtcTime::from_unix(100, 0, TimeQuality::synchronized()))
}

fn frame_nds_com(st: u32, nds_com: bool) -> Vec<u8> {
    let mut pdu = pdu_of(st, 0, false, 1, vec![], UtcTime::from_unix(100, 0, TimeQuality::synchronized()));
    pdu.nds_com = nds_com;
    wrap(&pdu, false)
}

fn build(st: u32, sq: u32, sim: bool, conf_rev: u32, values: Vec<Value>, t: UtcTime) -> Vec<u8> {
    wrap(&pdu_of(st, sq, sim, conf_rev, values, t), sim)
}

fn pdu_of(st: u32, sq: u32, sim: bool, conf_rev: u32, values: Vec<Value>, t: UtcTime) -> GoosePdu {
    GoosePdu {
        gocb_ref: "IED1LD0/LLN0$GO$gcb1".into(),
        time_allowed_to_live: TAL_MS,
        dat_set: "IED1LD0/LLN0$ds1".into(),
        go_id: None,
        t,
        st_num: st,
        sq_num: sq,
        simulation: sim,
        conf_rev,
        nds_com: false,
        all_data: values,
    }
}

fn wrap(pdu: &GoosePdu, sim: bool) -> Vec<u8> {
    let h = FrameHeader {
        dst: MacAddr::goose_base(),
        src: MacAddr::default(),
        vlan: None,
        ethertype: ETHERTYPE_GOOSE,
        appid: 1,
        reserved1: if sim { RESERVED1_SIMULATION } else { 0 },
        reserved2: 0,
    };
    h.to_frame(&pdu.encode().unwrap()).unwrap()
}

fn key() -> SubscriptionKey {
    SubscriptionKey { dst: MacAddr::goose_base(), appid: 1, gocb_ref: "IED1LD0/LLN0$GO$gcb1".into() }
}

fn sub() -> Subscriber {
    Subscriber::new(SubscriberConfig::new(key()).with_conf_rev(1))
}

#[test]
fn states_and_retransmissions() {
    let mut s = sub();
    let t0 = Instant::zero();
    assert!(matches!(s.feed(t0, &frame(5, 0, false, vec![Value::Boolean(true)])).as_slice(), [SubscriberEvent::NewState { st_num: 5, .. }]));
    assert_eq!(s.next_timeout(), Some(t0.plus_millis(u64::from(TAL_MS))));
    assert!(matches!(s.feed(t0, &frame(5, 1, false, vec![])).as_slice(), [SubscriberEvent::Retransmission { sq_num: 1, .. }]));
    assert!(matches!(s.feed(t0, &frame(6, 0, false, vec![])).as_slice(), [SubscriberEvent::NewState { st_num: 6, .. }]));
    assert_eq!(s.stats().state_changes, 2);
    assert_eq!(s.st_num(), Some(6));
}

#[test]
fn replays_are_rejected_while_the_state_is_live() {
    let mut s = sub();
    let t0 = Instant::zero();
    s.feed(t0, &frame(5, 3, false, vec![]));
    assert!(matches!(s.feed(t0, &frame(5, 3, false, vec![])).as_slice(), [SubscriberEvent::Invalid(Invalid::Replay { .. })]));
    assert!(matches!(s.feed(t0, &frame(5, 2, false, vec![])).as_slice(), [SubscriberEvent::Invalid(Invalid::Replay { .. })]));
    assert!(matches!(s.feed(t0.plus_millis(50), &frame(4, 9, false, vec![])).as_slice(), [SubscriberEvent::Invalid(Invalid::Replay { .. })]));
    assert_eq!(s.stats().replays, 3);
}

#[test]
fn a_restarted_publisher_is_accepted_once_the_state_expired() {
    let mut s = sub();
    s.feed(Instant::zero(), &frame(500, 0, false, vec![]));
    let after_tal = Instant::zero().plus_millis(u64::from(TAL_MS));
    let ev = s.feed(after_tal, &frame(1, 0, false, vec![]));
    assert!(matches!(ev.as_slice(), [SubscriberEvent::Expired, SubscriberEvent::NewState { st_num: 1, .. }]), "{ev:?}");
    assert_eq!(s.stats().replays, 0);
    assert!(!s.is_expired(), "the new state revives the subscription");
}

#[test]
fn a_restarted_publisher_is_not_locked_out_by_its_own_sqnum() {
    let mut s = sub();
    for sq in 0..50 {
        s.feed(Instant::zero(), &frame(1, sq, false, vec![]));
    }
    let after_tal = Instant::zero().plus_millis(u64::from(TAL_MS));
    let ev = s.feed(after_tal, &frame(1, 0, false, vec![Value::Boolean(true)]));
    assert!(matches!(ev.as_slice(), [SubscriberEvent::Expired, SubscriberEvent::NewState { st_num: 1, .. }]), "{ev:?}");
    assert_eq!(s.stats().replays, 0);
    assert!(matches!(s.feed(after_tal, &frame(1, 1, false, vec![])).as_slice(), [SubscriberEvent::Retransmission { sq_num: 1, .. }]));
}

#[test]
fn every_rejection_moves_a_counter() {
    let mut s = sub();
    let t0 = Instant::zero();
    s.feed(t0, &frame(5, 0, false, vec![]));
    s.feed(t0, &frame(5, 0, false, vec![])); // replay
    s.feed(t0, &frame(1, 0, false, vec![])[..30]); // malformed
    let mut mismatched = frame(6, 0, false, vec![]);
    mismatched[18] |= 0x80; // header S bit set, PDU flag not
    s.feed(t0, &mismatched);
    let st = s.stats();
    assert_eq!((st.replays, st.malformed, st.simulation_mismatches, st.member_count_mismatches), (1, 1, 1, 0));
}

#[test]
fn the_ids_delta_features_come_out_of_the_verdict() {
    let mut s = sub();
    let t0 = Instant::zero();
    assert_eq!(s.deltas(), None, "a delta needs two frames");

    s.feed(t0, &frame(5, 0, false, vec![]));
    assert_eq!(s.deltas(), None);

    let t1 = t0.plus_millis(4);
    s.feed(t1, &frame_at(5, 1, 100, 4_000_000));
    let d = s.deltas().unwrap();
    assert_eq!((d.st_diff, d.sq_diff), (0, 1));
    assert_eq!(d.arrival_delta, 4_000_000);
    assert!((d.t_delta - 4_000_000).abs() < 60, "t_delta was {}", d.t_delta);
    assert_eq!(d.since_state_change, 4_000_000);

    let t2 = t1.plus_millis(6);
    s.feed(t2, &frame_at(6, 0, 100, 10_000_000));
    let d = s.deltas().unwrap();
    assert_eq!((d.st_diff, d.sq_diff), (1, -1));
    assert_eq!(d.arrival_delta, 6_000_000);
    assert_eq!(d.since_state_change, 10_000_000, "measured from the previous change, not this one");
    s.feed(t2.plus_millis(4), &frame_at(6, 1, 100, 14_000_000));
    assert_eq!(s.deltas().unwrap().since_state_change, 4_000_000, "and from this one afterwards");

    s.feed(t2.plus_millis(8), &frame_at(6, 2, 101, 14_000_000));
    let d = s.deltas().unwrap();
    assert_eq!(d.arrival_delta, 4_000_000);
    assert_eq!(d.t_delta, 1_000_000_000, "a whole second of clock skew, with 4 ms on the wire");
}

#[test]
fn counters_may_wrap() {
    let mut s = sub();
    let t0 = Instant::zero();
    s.feed(t0, &frame(7, u32::MAX, false, vec![]));
    assert!(matches!(s.feed(t0, &frame(7, 0, false, vec![])).as_slice(), [SubscriberEvent::Retransmission { sq_num: 0, .. }]));
    let mut s2 = sub();
    s2.feed(t0, &frame(u32::MAX, 0, false, vec![]));
    assert!(matches!(s2.feed(t0, &frame(1, 0, false, vec![])).as_slice(), [SubscriberEvent::NewState { st_num: 1, .. }]));
}

#[test]
fn expiry_fires_once() {
    let mut s = sub();
    s.feed(Instant::zero(), &frame(1, 0, false, vec![]));
    s.on_timeout(Instant::zero().plus_millis(50));
    assert!(s.poll_event().is_none());
    s.on_timeout(Instant::zero().plus_millis(u64::from(TAL_MS)));
    assert_eq!(s.poll_event(), Some(SubscriberEvent::Expired));
    s.on_timeout(Instant::zero().plus_millis(500));
    assert!(s.poll_event().is_none());
    assert!(s.is_expired());
    assert_eq!(s.next_timeout(), None);
    assert_eq!(s.stats().expiries, 1);
}

#[test]
fn simulation_off_ignores_simulated_frames_and_reports_once() {
    let mut s = sub();
    let t0 = Instant::zero();
    assert!(matches!(s.feed(t0, &frame(1, 0, true, vec![])).as_slice(), [SubscriberEvent::IgnoredSimulation]));
    assert!(s.feed(t0, &frame(2, 0, true, vec![])).is_empty(), "reported once, not per frame");
    assert_eq!(s.stats().simulation_dropped, 2);
    assert!(matches!(s.feed(t0, &frame(1, 0, false, vec![])).as_slice(), [SubscriberEvent::NewState { .. }]));
}

#[test]
fn simulation_preferred_takes_over_and_then_ignores_the_real_stream() {
    let mut s = Subscriber::new(SubscriberConfig::new(key()).with_conf_rev(1).with_simulation(SimulationMode::Preferred));
    let t0 = Instant::zero();
    assert!(matches!(s.feed(t0, &frame(10, 0, false, vec![])).as_slice(), [SubscriberEvent::NewState { st_num: 10, .. }]));
    let ev = s.feed(t0, &frame(1, 0, true, vec![]));
    assert!(matches!(ev.as_slice(), [SubscriberEvent::SimulationTakeover, SubscriberEvent::NewState { st_num: 1, simulation: true, .. }]), "{ev:?}");
    assert!(s.simulation_active());
    assert!(s.feed(t0, &frame(11, 0, false, vec![])).is_empty(), "real frames are dropped once simulation took over");
    assert!(matches!(s.feed(t0, &frame(2, 0, true, vec![])).as_slice(), [SubscriberEvent::NewState { st_num: 2, .. }]));
    s.reset_simulation();
    assert!(matches!(s.feed(t0, &frame(12, 0, false, vec![])).as_slice(), [SubscriberEvent::NewState { st_num: 12, .. }]));
}

#[test]
fn conf_rev_mismatch_is_edge_triggered() {
    let mut s = sub();
    let t0 = Instant::zero();
    assert!(matches!(s.feed(t0, &frame_with(1, 0, false, 7, vec![])).as_slice(), [SubscriberEvent::ConfRevMismatch { received: 7, expected: 1 }]));
    assert!(s.feed(t0, &frame_with(2, 0, false, 7, vec![])).is_empty(), "reported once, not per frame");
    assert_eq!(s.stats().conf_rev_dropped, 2);
    assert!(matches!(s.feed(t0, &frame(3, 0, false, vec![])).as_slice(), [SubscriberEvent::NewState { .. }]));
    assert!(matches!(s.feed(t0, &frame_with(4, 0, false, 7, vec![])).as_slice(), [SubscriberEvent::ConfRevMismatch { .. }]));
}

#[test]
fn other_traffic_and_malformed_frames() {
    let mut s = sub();
    let t0 = Instant::zero();
    assert!(s.feed(t0, &[0u8; 30]).is_empty());
    let mut other = frame(1, 0, false, vec![]);
    other[5] = 0x09;
    assert!(s.feed(t0, &other).is_empty());
    assert_eq!(s.stats().other_stream, 2);
    let truncated = &frame(1, 0, false, vec![])[..30];
    assert!(matches!(s.feed(t0, truncated).as_slice(), [SubscriberEvent::Invalid(Invalid::Malformed(_))]));
    let mut mismatched = frame(1, 0, false, vec![]);
    mismatched[18] |= 0x80;
    assert!(matches!(s.feed(t0, &mismatched).as_slice(), [SubscriberEvent::Invalid(Invalid::SimulationMismatch)]));
    assert_eq!(s.stats().simulation_mismatches, 1);
}

#[test]
fn needs_commissioning_is_edge_triggered() {
    let mut s = sub();
    let t0 = Instant::zero();
    let ev = s.feed(t0, &frame_nds_com(1, true));
    assert!(matches!(ev.as_slice(), [SubscriberEvent::NewState { .. }, SubscriberEvent::NeedsCommissioning]), "{ev:?}");
    for st in 2..20 {
        assert!(s.feed(t0, &frame_nds_com(st, true)).iter().all(|e| !matches!(e, SubscriberEvent::NeedsCommissioning)), "reported once, not per frame");
    }
    assert!(s.feed(t0, &frame_nds_com(20, false)).iter().all(|e| !matches!(e, SubscriberEvent::NeedsCommissioning)));
    assert_eq!(s.stats().commissioning_changes, 2);
    assert!(s.feed(t0, &frame_nds_com(21, true)).contains(&SubscriberEvent::NeedsCommissioning));
    let mut p = Subscriber::new(SubscriberConfig::new(key()).with_conf_rev(1).with_simulation(SimulationMode::Preferred));
    assert!(p.feed(t0, &frame_nds_com(1, true)).contains(&SubscriberEvent::NeedsCommissioning));
    p.reset_simulation();
    assert!(p.feed(t0, &frame_nds_com(2, true)).contains(&SubscriberEvent::NeedsCommissioning));
}

#[test]
fn a_malformed_frame_belonging_to_someone_else_is_other_traffic() {
    let mut s = sub();
    let t0 = Instant::zero();
    let mine = frame(1, 0, false, vec![]);
    s.feed(t0, &mine[..30]);
    let mut theirs = mine.clone();
    theirs[15] = 0x09; // another APPID
    s.feed(t0, &theirs[..30]);
    let mut sv = mine.clone();
    sv[13] = 0xBA; // sampled values, truncated
    s.feed(t0, &sv[..30]);
    let st = s.stats();
    assert_eq!((st.malformed, st.other_stream), (1, 2));
}

#[test]
fn state_changes_that_never_arrived_are_counted() {
    let mut s = sub();
    let t0 = Instant::zero();
    s.feed(t0, &frame(5, 0, false, vec![]));
    s.feed(t0, &frame(6, 0, false, vec![])); // orderly
    assert_eq!((s.stats().state_gaps, s.stats().states_missed), (0, 0));
    s.feed(t0, &frame(9, 0, false, vec![])); // 7 and 8 were published and lost
    assert_eq!((s.stats().state_gaps, s.stats().states_missed), (1, 2));
    let later = t0.plus_millis(u64::from(TAL_MS) * 4);
    s.feed(later, &frame(400, 0, false, vec![]));
    assert_eq!((s.stats().state_gaps, s.stats().states_missed), (1, 2));
    let mut w = sub();
    w.feed(t0, &frame(u32::MAX, 0, false, vec![]));
    w.feed(t0, &frame(1, 0, false, vec![]));
    assert_eq!((w.stats().state_gaps, w.stats().states_missed), (0, 0));
}

#[test]
fn the_event_queue_is_bounded() {
    let mut cfg = SubscriberConfig::new(key());
    cfg.event_capacity = 4;
    let mut s = Subscriber::new(cfg);
    for i in 1..50u32 {
        s.on_frame(Instant::zero(), &frame(i, 0, false, vec![]));
    }
    let mut n = 0;
    while s.poll_event().is_some() {
        n += 1;
    }
    assert_eq!(n, 4);
    assert_eq!(s.stats().events_dropped, 45);
    assert_eq!(s.stats().state_changes, 49, "dropping events must not lose counters");
}
