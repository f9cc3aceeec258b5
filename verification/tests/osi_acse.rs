//! ACSE.

use iec61850_rs::proto::osi::acse::{Apdu, Associate, RESULT_ACCEPTED};
use iec61850_rs::proto::osi::Oid;

const REFERENCE_AARQ: &[u8] = &[
    0x60, 0x32, // AARQ
    0x80, 0x02, 0x07, 0x80, // protocol-version
    0xA1, 0x07, 0x06, 0x05, 0x28, 0xCA, 0x22, 0x01, 0x01, // aSO-context-name 1.0.9506.1.1
    0xA2, 0x04, 0x06, 0x02, 0x29, 0x02, // called-AP-title 1.1.2
    0xA3, 0x03, 0x02, 0x01, 0x02, // called-AE-qualifier 2
    0xA6, 0x04, 0x06, 0x02, 0x29, 0x01, // calling-AP-title 1.1.1
    0xA7, 0x03, 0x02, 0x01, 0x01, // calling-AE-qualifier 1
    0xBE, 0x0D, // user-information
    0x28, 0x0B, 0x06, 0x02, 0x51, 0x01, 0x02, 0x01, 0x03, // EXTERNAL: BER, context 3
    0xA0, 0x02, 0xA8, 0x00, // single-ASN1-type { initiate-RequestPDU }
];

#[test]
fn the_reference_associate_request_round_trips_byte_for_byte() {
    let Apdu::Associate(a) = Apdu::parse(REFERENCE_AARQ).unwrap() else { panic!("not an AARQ") };
    assert_eq!(a.protocol_version, Some((7, &[0x80][..])));
    assert_eq!(a.context_name, Some(Oid::mms_application_context_9506()));
    assert_eq!(a.called_ap_title, Some(&[0x06, 0x02, 0x29, 0x02][..]));
    assert_eq!(a.calling_ae_qualifier, Some(&[0x02, 0x01, 0x01][..]));
    let u = a.user_information.unwrap();
    assert_eq!(u.direct_reference, Some(Oid::ber()));
    assert_eq!(u.indirect_reference, Some(3));
    assert_eq!(a.mms_pdu(), Some(&[0xA8, 0x00][..]));
    assert_eq!(Apdu::Associate(a).to_vec().unwrap(), REFERENCE_AARQ);
}

#[test]
fn an_associate_response_carries_the_result_and_the_external_may_omit_its_syntax() {
    let wire: &[u8] = &[
        0x61, 0x24, // AARE
        0x80, 0x02, 0x07, 0x80, // protocol-version
        0xA1, 0x07, 0x06, 0x05, 0x28, 0xCA, 0x22, 0x01, 0x01, // aSO-context-name
        0xA2, 0x03, 0x02, 0x01, 0x00, // result: accepted
        0xA3, 0x05, 0xA1, 0x03, 0x02, 0x01, 0x00, // result-source-diagnostic
        0xBE, 0x09, 0x28, 0x07, 0x02, 0x01, 0x03, 0xA0, 0x02, 0xA9, 0x00,
    ];
    let Apdu::AssociateResponse(a) = Apdu::parse(wire).unwrap() else { panic!("not an AARE") };
    assert!(a.accepted());
    assert_eq!(a.result_diagnostic, Some(&[0xA1, 0x03, 0x02, 0x01, 0x00][..]));
    let u = a.user_information.unwrap();
    assert_eq!((u.direct_reference, u.indirect_reference), (None, Some(3)));
    assert_eq!(a.mms_pdu(), Some(&[0xA9, 0x00][..]));
    assert_eq!(Apdu::AssociateResponse(a).to_vec().unwrap(), wire);
}

#[test]
fn the_password_fields_sit_at_different_tags_in_the_request_and_the_response() {
    let mut a = Associate::request(None, None, 3, &[0xA8, 0x00]);
    a.sender_requirements = Some((7, &[0x80]));
    a.mechanism_name = Some(Oid::password_mechanism());
    a.authentication_value = Some(&[0x80, 0x04, b'p', b'a', b's', b's']);
    let wire = Apdu::Associate(a).to_vec().unwrap();
    assert!(wire.windows(2).any(|w| w == [0x8A, 0x02]), "sender-acse-requirements is [10] in an AARQ");
    assert!(wire.windows(2).any(|w| w == [0x8B, 0x03]), "mechanism-name is [11]");
    assert!(wire.windows(2).any(|w| w == [0xAC, 0x06]), "calling-authentication-value is [12]");
    let Apdu::Associate(back) = Apdu::parse(&wire).unwrap() else { panic!() };
    assert_eq!(back.mechanism_name, Some(Oid::password_mechanism()));
    assert_eq!(back.authentication_value, Some(&[0x80, 0x04, b'p', b'a', b's', b's'][..]));

    let mut r = Associate { result: Some(RESULT_ACCEPTED), ..Associate::default() };
    r.sender_requirements = Some((7, &[0x80]));
    r.mechanism_name = Some(Oid::password_mechanism());
    let wire = Apdu::AssociateResponse(r).to_vec().unwrap();
    assert!(wire.windows(2).any(|w| w == [0x88, 0x02]), "responder-acse-requirements is [8] in an AARE");
    assert!(wire.windows(2).any(|w| w == [0x89, 0x03]), "mechanism-name is [9]");
}

#[test]
fn release_and_abort_round_trip() {
    for (apdu, first) in [(Apdu::Release(Some(0)), 0x62u8), (Apdu::ReleaseResponse(Some(0)), 0x63), (Apdu::Abort(Some(1)), 0x64)] {
        let wire = apdu.to_vec().unwrap();
        assert_eq!(wire.first(), Some(&first));
        assert_eq!(Apdu::parse(&wire).unwrap(), apdu);
    }
    assert_eq!(Apdu::parse(&[0x62, 0x00]).unwrap(), Apdu::Release(None));
}

#[test]
fn acse_truncation_is_an_error_not_a_panic() {
    for cut in 0..REFERENCE_AARQ.len() {
        let _ = Apdu::parse(&REFERENCE_AARQ[..cut]);
    }
    assert!(Apdu::parse(&[]).is_err());
    assert!(Apdu::parse(&[0x30, 0x00]).is_err(), "a SEQUENCE is not an ACSE APDU");
    assert!(Apdu::parse(&[0x6F, 0x00]).is_err(), "an unknown application tag");
}
