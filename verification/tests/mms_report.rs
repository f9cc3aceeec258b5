//! Reports.

use iec61850_rs::common::{DecodeReason, EntryTime, Error, Quality, TimeQuality, UtcTime};
use iec61850_rs::proto::data::Value;
use iec61850_rs::proto::mms::report::{
    OptFlds, ReasonCode, Report, ReportAssembler, ReportEntry, TrgOps,
};

#[test]
fn one_segment_run_cannot_grow_without_limit() {
    let mut a = ReportAssembler::with_max_entries(4, 8);
    assert_eq!(a.max_entries(), 8);

    let mut fed = 0usize;
    for sub in 0..20u32 {
        let base = (sub as usize) * 2;
        assert_eq!(a.push(segment("flood", 7, sub, true, 64, &[base % 64, (base + 1) % 64])), None, "no whole report may escape");
        fed += 2;
    }
    assert!(fed > a.max_entries());
    assert_eq!(a.stats().oversized, 1, "the run is abandoned when it passes the bound");
    assert_eq!(a.pending(), 0, "and nothing is held afterwards: a run restarts only at SubSeqNum 0");
    assert_eq!(a.stats().reassembled, 0);
}

#[test]
fn an_oversized_first_segment_is_not_stored() {
    let mut a = ReportAssembler::with_max_entries(4, 2);
    assert_eq!(a.push(segment("big", 1, 0, true, 64, &[0, 1, 2, 3])), None);
    assert_eq!(a.pending(), 0);
    assert_eq!(a.stats().oversized, 1);
}

fn sample() -> Report {
    let opt_flds = OptFlds::none()
        .with_sequence_number(true)
        .with_report_time_stamp(true)
        .with_data_set_name(true)
        .with_data_reference(true)
        .with_reason_for_inclusion(true)
        .with_conf_revision(true);
    Report {
        rpt_id: String::from("IED1LD0/LLN0$RP$urcb01"),
        opt_flds,
        seq_num: Some(7),
        time_of_entry: Some(EntryTime::from_unix_millis(1_700_000_000_500)),
        data_set: Some(String::from("IED1LD0/LLN0$dsTrip")),
        buf_ovfl: None,
        entry_id: None,
        conf_rev: Some(3),
        sub_seq_num: None,
        more_segments_follow: false,
        inclusion: Report::inclusion_for(4, &[0, 3]),
        entries: vec![
            ReportEntry {
                index: 0,
                reference: Some(String::from("IED1LD0/PTRC1$ST$Tr$general")),
                value: Value::Boolean(true),
                reason: Some(ReasonCode::none().with_data_change(true)),
            },
            ReportEntry {
                index: 3,
                reference: Some(String::from("IED1LD0/PTRC1$ST$Tr$q")),
                value: Value::quality(Quality::good()),
                reason: Some(ReasonCode::none().with_quality_change(true)),
            },
        ],
    }
}

#[test]
fn a_report_round_trips_through_the_order_table_40_defines() {
    let r = sample();
    let values = r.to_values().unwrap();
    assert_eq!(values.len(), 13, "{values:#?}");
    assert_eq!(Report::from_values(&values).unwrap(), r);
}

#[test]
fn the_option_flags_decide_which_fields_are_on_the_wire() {
    let mut r = sample();
    r.opt_flds = OptFlds::none();
    r.seq_num = None;
    r.time_of_entry = None;
    r.data_set = None;
    r.conf_rev = None;
    for e in &mut r.entries {
        e.reference = None;
        e.reason = None;
    }
    let values = r.to_values().unwrap();
    assert_eq!(values.len(), 5);
    assert_eq!(Report::from_values(&values).unwrap(), r);

    let mut lying = r.clone();
    lying.opt_flds = OptFlds::none().with_sequence_number(true);
    assert!(lying.to_values().is_err());
}

#[test]
fn the_inclusion_bit_string_says_which_members_arrived() {
    let r = sample();
    assert_eq!(r.data_set_len(), 4, "the data set has four members");
    assert_eq!(r.entries.iter().map(|e| e.index).collect::<Vec<_>>(), [0, 3]);
    assert_eq!(r.inclusion, (4, vec![0b1001_0000]));
    assert_eq!(Report::inclusion_for(16, &[0, 8, 15]), (0, vec![0b1000_0000, 0b1000_0001]));
    assert_eq!(Report::inclusion_for(3, &[1]), (5, vec![0b0100_0000]));
}

#[test]
fn a_segmented_report_carries_its_segment_number() {
    let mut r = sample();
    r.opt_flds = r.opt_flds.with_segmentation(true);
    r.sub_seq_num = Some(2);
    r.more_segments_follow = true;
    let values = r.to_values().unwrap();
    let back = Report::from_values(&values).unwrap();
    assert_eq!((back.sub_seq_num, back.more_segments_follow), (Some(2), true));
    assert!(back.is_partial());
}

#[test]
fn a_report_that_does_not_match_its_own_header_is_an_error_not_a_guess() {
    let r = sample();
    let mut values = r.to_values().unwrap();
    values.truncate(8);
    assert!(Report::from_values(&values).is_err());
    let mut extra = r.to_values().unwrap();
    extra.push(Value::Boolean(false));
    assert!(matches!(Report::from_values(&extra), Err(Error::Decode { reason: DecodeReason::TrailingBytes, .. })));
    assert!(Report::from_values(&[Value::Boolean(true), Value::Boolean(true)]).is_err());
}

#[test]
fn opt_flds_and_trg_ops_pack_the_way_the_tables_number_them() {
    let (unused, bytes) = OptFlds::none().with_sequence_number(true).to_bit_string();
    assert_eq!((unused, bytes.as_slice()), (6, &[0b0100_0000, 0][..]), "ten bits over two octets");
    assert_eq!(OptFlds::from_bit_string(&[0b0100_0000, 0]), OptFlds::none().with_sequence_number(true));

    let (_, seg) = OptFlds::none().with_segmentation(true).to_bit_string();
    assert_eq!(seg.as_slice(), &[0, 0b0100_0000]);

    let (unused, bytes) = TrgOps::events().to_bit_string();
    assert_eq!((unused, bytes.as_slice()), (2, &[0b0110_0100][..]), "data-change 1, quality-change 2, GI 5, MSB first");
    let t = TrgOps::events();
    assert!(t.data_change() && t.quality_change() && t.general_interrogation());
    assert!(!t.integrity() && !t.data_update());
    assert_eq!(TrgOps::from_bit_string(&bytes), TrgOps::events());
    assert!(TrgOps::none().is_empty());

    assert_eq!(OptFlds::from_value(&OptFlds::none().with_entry_id(true).to_value()), Some(OptFlds::none().with_entry_id(true)));
    assert_eq!(TrgOps::from_value(&Value::Boolean(true)), None);
}

fn segment(rpt_id: &str, seq: u32, sub: u32, more: bool, total: usize, included: &[usize]) -> Report {
    Report {
        rpt_id: String::from(rpt_id),
        opt_flds: OptFlds::none().with_sequence_number(true).with_segmentation(true),
        seq_num: Some(seq),
        time_of_entry: None,
        data_set: None,
        buf_ovfl: None,
        entry_id: None,
        conf_rev: None,
        sub_seq_num: Some(sub),
        more_segments_follow: more,
        inclusion: Report::inclusion_for(total, included),
        entries: included.iter().map(|i| ReportEntry { index: *i, reference: None, value: Value::Unsigned(*i as u64), reason: None }).collect(),
    }
}

#[test]
fn the_segments_of_one_report_are_joined_into_it() {
    let mut a = ReportAssembler::new(4);
    assert!(a.push(segment("u1", 7, 0, true, 4, &[0])).is_none());
    assert_eq!(a.pending(), 1);
    assert!(a.push(segment("u1", 7, 1, true, 4, &[1, 2])).is_none());
    let whole = a.push(segment("u1", 7, 2, false, 4, &[3])).expect("the last segment completes it");
    assert_eq!(whole.entries.iter().map(|e| e.index).collect::<Vec<_>>(), [0, 1, 2, 3]);
    assert_eq!(whole.data_set_len(), 4);
    assert_eq!(whole.inclusion, Report::inclusion_for(4, &[0, 1, 2, 3]), "the inclusion bits are the union of the segments'");
    assert!(!whole.is_partial());
    assert_eq!(a.pending(), 0);
    assert_eq!(a.stats().reassembled, 1);
    assert_eq!(Report::from_values(&whole.to_values().unwrap()).unwrap().entries.len(), 4);
}

#[test]
fn an_unsegmented_report_passes_straight_through() {
    let mut a = ReportAssembler::new(4);
    let r = sample();
    assert_eq!(a.push(r.clone()), Some(r));
    assert_eq!(a.pending(), 0);
    let single = segment("u1", 1, 0, false, 2, &[0, 1]);
    assert_eq!(a.push(single.clone()), Some(single));
    assert_eq!(a.stats().reassembled, 0, "nothing was reassembled - nothing was split");
}

#[test]
fn a_missing_segment_abandons_the_run_rather_than_inventing_the_hole() {
    let mut a = ReportAssembler::new(4);
    assert!(a.push(segment("u1", 7, 0, true, 4, &[0])).is_none());
    assert!(a.push(segment("u1", 7, 2, true, 4, &[2])).is_none(), "segment 1 never arrived");
    assert_eq!(a.stats().out_of_order, 2);
    assert_eq!(a.pending(), 0);
    assert!(a.push(segment("u1", 8, 0, true, 4, &[0])).is_none());
    assert_eq!(a.pending(), 1);
    let mut b = ReportAssembler::new(4);
    assert!(b.push(segment("u1", 1, 0, true, 2, &[0])).is_none());
    assert!(b.push(segment("u1", 2, 0, true, 2, &[0])).is_none());
    assert_eq!(b.pending(), 2);
    let first = b.push(segment("u1", 1, 1, false, 2, &[1])).expect("report 1 completes");
    assert_eq!(first.seq_num, Some(1));
    assert_eq!(b.pending(), 1);
}

#[test]
fn a_server_that_never_finishes_a_report_cannot_grow_a_clients_memory() {
    let mut a = ReportAssembler::new(2);
    for seq in 0..10 {
        assert!(a.push(segment("u1", seq, 0, true, 2, &[0])).is_none());
    }
    assert_eq!(a.pending(), 2);
    assert_eq!(a.stats().evicted, 8);
    a.clear();
    assert_eq!(a.pending(), 0);
}

#[test]
fn an_ed1_server_that_stamps_a_utc_time_is_still_understood() {
    let mut values = sample().to_values().unwrap();
    values[3] = Value::UtcTime(UtcTime::from_unix(1_700_000_000, 500_000_000, TimeQuality::synchronized()));
    let back = Report::from_values(&values).unwrap();
    assert_eq!(back.time_of_entry, Some(EntryTime::from_unix_millis(1_700_000_000_500)));
    assert!(matches!(back.to_values().unwrap()[3], Value::BinaryTime(_)), "and it goes back out as the standard's type");
}
