//! Rejects.

use iec61850_rs::ber::{Cursor, Tag};
use iec61850_rs::proto::mms::reject::{
    Reject, RejectReason, INVALID_PDU, MAX_SERV_OUTSTANDING_EXCEEDED, UNRECOGNIZED_SERVICE,
};

fn round_trip(r: Reject) -> Reject {
    let bytes = r.to_vec().expect("encode");
    let t = Cursor::new(&bytes).next_required().expect("frame");
    assert_eq!(t.tag, Tag::context_constructed(4));
    let back = Reject::parse(&t).expect("decode");
    assert_eq!(back, r);
    back
}

#[test]
fn every_reason_table_round_trips() {
    for reason in [
        RejectReason::ConfirmedRequest(UNRECOGNIZED_SERVICE),
        RejectReason::ConfirmedRequest(MAX_SERV_OUTSTANDING_EXCEEDED),
        RejectReason::ConfirmedResponse(2),
        RejectReason::ConfirmedError(3),
        RejectReason::Unconfirmed(1),
        RejectReason::PduError(INVALID_PDU),
        RejectReason::CancelRequest(1),
        RejectReason::CancelResponse(0),
        RejectReason::CancelError(2),
        RejectReason::ConcludeRequest(1),
        RejectReason::ConcludeResponse(0),
        RejectReason::ConcludeError(0),
        RejectReason::Other { tag: 20, code: 7 },
    ] {
        round_trip(Reject { original_invoke_id: Some(42), reason });
        round_trip(Reject { original_invoke_id: None, reason });
    }
}

#[test]
fn a_code_is_read_against_its_own_table() {
    assert_eq!(RejectReason::ConfirmedRequest(3).to_text(), "confirmed-request: invalid-invokeID");
    assert_eq!(RejectReason::ConfirmedResponse(3).to_text(), "confirmed-response: invalid-result");
    assert_eq!(RejectReason::PduError(1).to_text(), "pdu-error: invalid-pdu");
    assert_eq!(RejectReason::ConfirmedRequest(7).to_text(), "confirmed-request: 7");
    assert_eq!(RejectReason::Other { tag: 20, code: 7 }.to_text(), "reject(20): 7");
}

#[test]
fn the_wire_shape_is_the_one_the_asn1_module_describes() {
    let r = Reject::confirmed_request(42, UNRECOGNIZED_SERVICE);
    assert_eq!(r.to_vec().unwrap(), [0xA4, 0x06, 0x80, 0x01, 42, 0x81, 0x01, 0x01]);
}

#[test]
fn an_invoke_identifier_above_i32_max_stays_positive() {
    let r = Reject::confirmed_request(i64::from(u32::MAX) - 1, UNRECOGNIZED_SERVICE);
    let bytes = r.to_vec().unwrap();
    assert_eq!(&bytes[2..8], &[0x80, 0x05, 0x00, 0xFF, 0xFF, 0xFF], "the leading zero keeps it unsigned");
    assert_eq!(round_trip(r).original_invoke_id, Some(i64::from(u32::MAX) - 1));
}

#[test]
fn a_reason_must_be_a_primitive_tag_that_is_not_the_invoke_identifier() {
    let wire = [0xA4, 0x0A, 0xA0, 0x08, 0x1A, 0x03, 0x4C, 0x44, 0x35, 0x1A, 0x01, 0x54];
    let t = Cursor::new(&wire).next_required().unwrap();
    assert!(Reject::parse(&t).is_err(), "a constructed [0] is not a reject reason");

    let wire = [0xA4, 0x03, 0xA1, 0x01, 0x01];
    let t = Cursor::new(&wire).next_required().unwrap();
    assert!(Reject::parse(&t).is_err());

    let wire = [0xA4, 0x03, 0x81, 0x01, 0x01];
    let t = Cursor::new(&wire).next_required().unwrap();
    assert_eq!(Reject::parse(&t).unwrap().reason, RejectReason::ConfirmedRequest(UNRECOGNIZED_SERVICE));
}

#[test]
fn every_table_matches_the_asn1_module() {
    let cases: &[(RejectReason, &str)] = &[
        (RejectReason::ConfirmedRequest(0), "confirmed-request: other"),
        (RejectReason::ConfirmedRequest(2), "confirmed-request: unrecognized-modifier"),
        (RejectReason::ConfirmedRequest(5), "confirmed-request: invalid-modifier"),
        (RejectReason::ConfirmedRequest(6), "confirmed-request: max-serv-outstanding-exceeded"),
        (RejectReason::ConfirmedRequest(8), "confirmed-request: max-recursion-exceeded"),
        (RejectReason::ConfirmedRequest(9), "confirmed-request: value-out-of-range"),
        (RejectReason::ConfirmedResponse(5), "confirmed-response: max-recursion-exceeded"),
        (RejectReason::ConfirmedResponse(6), "confirmed-response: value-out-of-range"),
        (RejectReason::ConfirmedError(3), "confirmed-error: invalid-serviceError"),
        (RejectReason::ConfirmedError(4), "confirmed-error: value-out-of-range"),
        (RejectReason::Unconfirmed(2), "unconfirmed: invalid-argument"),
        (RejectReason::Unconfirmed(4), "unconfirmed: value-out-of-range"),
        (RejectReason::PduError(0), "pdu-error: unknown-pdu-type"),
        (RejectReason::PduError(2), "pdu-error: illegal-acse-mapping"),
        (RejectReason::CancelRequest(1), "cancel: invalid-invokeID"),
        (RejectReason::CancelResponse(1), "cancel: invalid-invokeID"),
        (RejectReason::CancelError(3), "cancel-error: value-out-of-range"),
        (RejectReason::ConcludeRequest(1), "conclude-request: invalid-argument"),
        (RejectReason::ConcludeResponse(1), "conclude-response: invalid-result"),
        (RejectReason::ConcludeError(1), "conclude-error: invalid-serviceError"),
        (RejectReason::ConcludeError(2), "conclude-error: value-out-of-range"),
    ];
    for (reason, want) in cases {
        assert_eq!(&reason.to_text(), want);
    }
    assert_eq!(RejectReason::ConfirmedRequest(7).to_text(), "confirmed-request: 7");
    assert_eq!(RejectReason::ConcludeResponse(2).to_text(), "conclude-response: 2");
    assert_eq!(RejectReason::ConfirmedResponse(4).to_text(), "confirmed-response: 4");
}

#[test]
fn an_invoke_identifier_outside_unsigned32_is_refused_rather_than_coerced() {
    let wire = [0xA4, 0x06, 0x80, 0x01, 0xFB, 0x81, 0x01, 0x01];
    let t = Cursor::new(&wire).next_required().unwrap();
    assert!(Reject::parse(&t).is_err(), "-5 is not an Unsigned32");

    let wire = [0xA4, 0x0A, 0x80, 0x05, 0x01, 0x00, 0x00, 0x00, 0x00, 0x81, 0x01, 0x01];
    let t = Cursor::new(&wire).next_required().unwrap();
    assert!(Reject::parse(&t).is_err());

    assert!(Reject::confirmed_request(-5, UNRECOGNIZED_SERVICE).to_vec().is_err());
    assert!(Reject::confirmed_request(i64::from(u32::MAX) + 1, UNRECOGNIZED_SERVICE).to_vec().is_err());
    assert!(Reject::confirmed_request(0, UNRECOGNIZED_SERVICE).to_vec().is_ok());
    assert!(Reject::confirmed_request(i64::from(u32::MAX), UNRECOGNIZED_SERVICE).to_vec().is_ok());
}

#[test]
fn trailing_content_after_the_reason_is_refused() {
    let wire = [0xA4, 0x06, 0x81, 0x01, 0x01, 0x82, 0x01, 0x02];
    let t = Cursor::new(&wire).next_required().unwrap();
    assert!(Reject::parse(&t).is_err());
}

#[test]
fn a_truncated_reject_is_an_error_not_a_panic() {
    let bytes = Reject::confirmed_request(1, 1).to_vec().unwrap();
    for cut in 0..bytes.len() {
        if let Ok(t) = Cursor::new(&bytes[..cut]).next_required() {
            let _ = Reject::parse(&t);
        }
    }
}
