//! Journals.

use iec61850_rs::proto::mms::journal::TimeOfDay;

#[test]
fn a_time_of_day_keeps_the_width_it_arrived_in() {
    let dated = TimeOfDay::from_unix_millis(1_700_000_000_500);
    assert!(dated.dated);
    assert_eq!(dated.to_octets().len(), 6);
    assert_eq!(TimeOfDay::from_octets(&dated.to_octets()).unwrap(), dated);

    let plain = TimeOfDay::from_octets(&[0, 0, 0x27, 0x10]).unwrap();
    assert!(!plain.dated);
    assert_eq!(plain.time.millis_of_day, 10_000);
    assert_eq!(plain.to_octets(), [0, 0, 0x27, 0x10]);
    assert!(TimeOfDay::from_octets(&[0, 0, 0]).is_err());
}
