//! The types every protocol shares.

use iec61850_rs::common::{
    ControlModel, EntryTime, Error, EventQueue, Instant, OptFlds, Quality, ReasonCode, TimeQuality,
    TrgOps, UtcTime,
};
use iec61850_rs::proto::ethernet::MacAddr;
use iec61850_rs::proto::mms::journal::TimeOfDay;

#[test]
fn a_timestamp_is_seconds_fraction_and_quality() {
    let t = UtcTime::from_unix(0x0102_0304, 500_000_000, TimeQuality::synchronized());
    assert_eq!(t.raw, 0x0102_0304_8000_008A);
    assert_eq!(t.to_unix_nanos(), 0x0102_0304 * 1_000_000_000 + 500_000_000);
    let last = UtcTime::from_unix(u32::MAX, 999_999_999, TimeQuality::synchronized());
    assert_eq!(last.raw, 0xFFFF_FFFF_FFFF_FF8A);
    let third = UtcTime::from_unix(0, 333_333_333, TimeQuality { bits: 0 });
    assert_eq!(third.raw, 0x5555_5500, "the fraction rounds down");
}

#[test]
fn an_entry_time_counts_days_from_1984() {
    assert_eq!(EntryTime::from_unix_millis(0), EntryTime { millis_of_day: 0, days_since_1984: 0 });
    let first = 5113u64 * 86_400_000;
    assert_eq!(EntryTime::from_unix_millis(first + 1_001), EntryTime { millis_of_day: 1_001, days_since_1984: 0 });
    let t = EntryTime::from_unix_millis(1_700_000_000_500);
    assert_eq!(t, EntryTime { millis_of_day: 80_000_500, days_since_1984: 14_562 });
    assert_eq!(t.to_octets(), [0x04, 0xC4, 0xB5, 0xF4, 0x38, 0xE2]);
    assert_eq!(EntryTime::from_octets(&t.to_octets()), Some(t));
    assert_eq!(EntryTime::from_octets(&[0; 5]), None);
}

#[test]
fn a_time_of_day_keeps_its_width() {
    for octets in [&[0, 0, 0x03, 0xE9][..], &[0x04, 0xC4, 0xB5, 0xF4, 0x38, 0xE2]] {
        assert_eq!(TimeOfDay::from_octets(octets).unwrap().to_octets(), octets);
    }
    assert!(TimeOfDay::from_octets(&[0; 5]).is_err());
}

#[test]
fn quality_keeps_thirteen_bits_and_drops_the_padding() {
    assert_eq!(Quality::from_octets(&[0xFF, 0xFF]).to_octets(), [0xFF, 0xFC]);
    assert_eq!(Quality::from_octets(&[0x80]).to_octets(), [0x80, 0x00]);
    assert_eq!(Quality::from_octets(&[]), Quality::good());
}

#[test]
fn the_bit_strings_of_a_report_control_block() {
    let all = OptFlds::from_bit_string(&[0xFF, 0xFF]);
    assert_eq!(all.to_bit_string(), (6, vec![0x7F, 0xC0]), "bit 0 is reserved");
    let o = OptFlds::none().with_sequence_number(true).with_segmentation(true);
    assert_eq!(o.to_bit_string(), (6, vec![0x40, 0x40]));
    assert!(o.segmentation() && !o.data_set_name());
    assert_eq!(TrgOps::events().to_bit_string(), (2, vec![0b0110_0100]));
    assert!(TrgOps::none().is_empty() && !TrgOps::events().is_empty());
    let r = ReasonCode::none().with_application_trigger(true);
    assert_eq!(ReasonCode::from_bit_string(&r.to_bit_string().1), r);
}

#[test]
fn the_five_control_models() {
    for code in 0..5 {
        assert_eq!(ControlModel::from_code(code).unwrap().to_code(), code);
    }
    assert_eq!(ControlModel::from_code(5), None);
    assert_eq!(ControlModel::from_code(-1), None);
    assert!(ControlModel::SboNormal.needs_select() && !ControlModel::SboNormal.select_carries_value());
    assert!(ControlModel::SboEnhanced.select_carries_value() && ControlModel::SboEnhanced.enhanced_security());
    assert!(!ControlModel::DirectNormal.enhanced_security());
}

#[test]
fn a_full_queue_pushes_out_its_oldest_event() {
    let mut q: EventQueue<u8> = EventQueue::new(2);
    for n in 1..=4 {
        q.push(n);
    }
    assert_eq!(q.dropped(), 2);
    assert_eq!((q.pop(), q.pop(), q.pop()), (Some(3), Some(4), None));
}

#[test]
fn time_does_not_run_past_its_end() {
    let late = Instant::zero().plus_millis(u64::MAX);
    assert_eq!(late.plus_millis(1), late);
    assert_eq!(Instant::zero().nanos_since(late), 0);
    assert_eq!(Instant::zero().plus_millis(3).nanos_since(Instant::zero()), 3_000_000);
}

#[test]
fn a_mac_address_that_is_not_six_octets_is_refused() {
    assert_eq!(MacAddr::parse("01-0C-cd-01-00-9f").unwrap(), MacAddr([0x01, 0x0C, 0xCD, 0x01, 0x00, 0x9F]));
    for text in ["", "01-0c-cd-01-00", "01-0c-cd-01-00-01-02", "01-0c-cd-01-00-zz", "1-0c-cd-01-00-001"] {
        assert!(matches!(MacAddr::parse(text), Err(Error::InvalidValue(_))), "{text}");
    }
    assert!(MacAddr::goose_base().is_goose_multicast() && !MacAddr::goose_base().is_sv_multicast());
}
