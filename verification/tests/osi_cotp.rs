//! COTP.

use iec61850_rs::common::Error;
use iec61850_rs::proto::osi::cotp::{Reassembler, Tpdu, Tsel, ER};

#[test]
fn the_reference_connection_request_round_trips() {
    let wire = [0x11u8, 0xE0, 0x00, 0x00, 0xB0, 0x01, 0x00, 0xC0, 0x01, 0x0A, 0xC1, 0x02, 0x00, 0x01, 0xC2, 0x02, 0x00, 0x02];
    let Tpdu::ConnectionRequest(cr) = Tpdu::parse(&wire).unwrap() else { panic!("not a CR") };
    assert_eq!((cr.dst_ref, cr.src_ref, cr.class_options), (0, 0xB001, 0));
    assert_eq!(cr.tpdu_size_exp, Some(10));
    assert_eq!(cr.max_data(), 1021);
    assert_eq!(cr.src_tsel, Some(Tsel::new(vec![0, 1])));
    assert_eq!(cr.dst_tsel, Some(Tsel::new(vec![0, 2])));

    let mut out = Vec::new();
    Tpdu::ConnectionRequest(cr).write(&mut out).unwrap();
    assert_eq!(out, wire, "re-encoding must reproduce the captured octets");
}

#[test]
fn the_reference_connection_confirm_round_trips() {
    let wire = [0x09u8, 0xD0, 0xB0, 0x01, 0x18, 0x02, 0x00, 0xC0, 0x01, 0x0A];
    let Tpdu::ConnectionConfirm(cc) = Tpdu::parse(&wire).unwrap() else { panic!("not a CC") };
    assert_eq!((cc.dst_ref, cc.src_ref, cc.tpdu_size_exp), (0xB001, 0x1802, Some(10)));
    assert_eq!(cc.src_tsel, None);
    let mut out = Vec::new();
    Tpdu::ConnectionConfirm(cc).write(&mut out).unwrap();
    assert_eq!(out, wire);
}

#[test]
fn data_tpdus_carry_the_end_of_transmission_bit() {
    let wire = [0x02u8, 0xF0, 0x80, 0xAA, 0xBB];
    assert_eq!(Tpdu::parse(&wire).unwrap(), Tpdu::Data { eot: true, payload: &[0xAA, 0xBB] });
    let mut out = Vec::new();
    Tpdu::Data { eot: true, payload: &[0xAA, 0xBB] }.write(&mut out).unwrap();
    assert_eq!(out, wire);
    assert_eq!(Tpdu::parse(&[0x02, 0xF0, 0x00, 0xAA]).unwrap(), Tpdu::Data { eot: false, payload: &[0xAA] });
}

#[test]
fn a_segmented_tsdu_is_reassembled_and_a_whole_one_is_not_copied() {
    let mut r = Reassembler::new(64);
    assert_eq!(r.push(true, &[1, 2, 3]).unwrap(), Some(&[1, 2, 3][..]));
    assert_eq!(r.buffered(), 0, "a TSDU that fits one TPDU is handed straight back");
    r.take();

    assert_eq!(r.push(false, &[1, 2]).unwrap(), None);
    assert_eq!(r.push(false, &[3]).unwrap(), None);
    assert_eq!(r.push(true, &[4, 5]).unwrap(), Some(&[1, 2, 3, 4, 5][..]));
    r.take();
    assert_eq!(r.buffered(), 0);
}

#[test]
fn a_tsdu_that_never_ends_is_refused_rather_than_buffered() {
    let mut r = Reassembler::new(8);
    assert!(r.push(false, &[0; 8]).is_ok());
    assert!(matches!(r.push(false, &[0; 8]), Err(Error::LimitExceeded { .. })));
    r.reset();
    assert_eq!(r.buffered(), 0);
}

#[test]
fn truncation_and_unknown_codes_are_errors_or_data_never_panics() {
    for cut in 0..6 {
        let _ = Tpdu::parse(&[0x11, 0xE0, 0, 0, 0xB0, 0x01][..cut]);
    }
    assert!(Tpdu::parse(&[]).is_err());
    assert!(Tpdu::parse(&[0x05, 0xE0, 0x00]).is_err(), "the length indicator must fit");
    assert!(matches!(Tpdu::parse(&[0x02, 0x70, 0x01]).unwrap(), Tpdu::Other { code: ER, .. }));
}

#[test]
fn a_disconnect_request_round_trips() {
    let wire = [0x06u8, 0x80, 0x18, 0x02, 0xB0, 0x01, 0x00];
    let dr = Tpdu::parse(&wire).unwrap();
    assert_eq!(dr, Tpdu::DisconnectRequest { dst_ref: 0x1802, src_ref: 0xB001, reason: 0 });
    let mut out = Vec::new();
    dr.write(&mut out).unwrap();
    assert_eq!(out, wire);
}
