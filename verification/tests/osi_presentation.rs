//! The presentation protocol.

use iec61850_rs::ber::Encoder;
use iec61850_rs::proto::osi::presentation::{
    ContextResult, Cp, Pdv, Ppdu, RESULT_ACCEPTANCE, RESULT_PROVIDER_REJECTION,
};
use iec61850_rs::proto::osi::Oid;

fn reference_cp() -> Vec<u8> {
    let mut e = Encoder::new();
    Ppdu::Connect(Cp::connect(&[0, 0, 0, 1], &[0, 0, 0, 2], 1, 3, &[0x60, 0x02, 0x80, 0x00])).write(&mut e).unwrap();
    e.into_vec()
}

#[test]
fn the_connect_pdu_matches_the_reference_capture_field_for_field() {
    let wire = reference_cp();
    assert_eq!(wire.first(), Some(&0x31), "CP-type is a SET");
    assert_eq!(&wire[2..7], &[0xA0, 0x03, 0x80, 0x01, 0x01], "mode-selector, normal mode");
    assert_eq!(wire[7], 0xA2, "normal-mode-parameters");
    assert_eq!(
        &wire[9..23],
        &[
            0x80, 0x02, 0x07, 0x80, // protocol-version, 7 unused bits, version-1
            0x81, 0x04, 0x00, 0x00, 0x00, 0x01, // calling-presentation-selector
            0x82, 0x04, 0x00, 0x00, 0x00, 0x02, // called-presentation-selector
        ][..14]
    );
    assert!(
        wire.windows(17).any(|w| w == [0x30, 0x0F, 0x02, 0x01, 0x01, 0x06, 0x04, 0x52, 0x01, 0x00, 0x01, 0x30, 0x04, 0x06, 0x02, 0x51, 0x01]),
        "context 1 is ACSE in BER, exactly as the capture writes it"
    );
    assert!(
        wire.windows(18).any(|w| w == [0x30, 0x10, 0x02, 0x01, 0x03, 0x06, 0x05, 0x28, 0xCA, 0x22, 0x02, 0x01, 0x30, 0x04, 0x06, 0x02, 0x51, 0x01]),
        "context 3 is MMS in BER"
    );
    assert!(wire.windows(4).any(|w| w == [0x88, 0x02, 0x06, 0x00]), "presentation-requirements");
    let Ppdu::Connect(cp) = Ppdu::parse(&wire, true).unwrap() else { panic!("not a CP") };
    assert_eq!(cp.protocol_version, Some((7, &[0x80][..])));
    assert_eq!(cp.calling_psel, Some(&[0, 0, 0, 1][..]));
    assert_eq!(cp.contexts.len(), 2);
    assert_eq!(cp.context_for(Oid::mms_abstract_syntax()), Some(3));
    assert_eq!(cp.context_for(Oid::acse_abstract_syntax()), Some(1));
    assert_eq!(cp.contexts[1].transfer_syntax, Oid::ber());
    assert_eq!(cp.user_data.len(), 1);
    assert_eq!(cp.user_data[0].context_id, 1);
    assert_eq!(cp.user_data[0].values.single(), Some(&[0x60, 0x02, 0x80, 0x00][..]));
    assert_eq!(Ppdu::Connect(cp).to_vec().unwrap(), wire, "re-encoding must reproduce the octets");
}

#[test]
fn the_accept_pdu_carries_a_result_list() {
    let cpa = Cp {
        protocol_version: Some((7, &[0x80])),
        responding_psel: Some(&[0, 0, 0, 2]),
        results: vec![
            ContextResult { result: RESULT_ACCEPTANCE, transfer_syntax: Some(Oid::ber()) },
            ContextResult { result: RESULT_ACCEPTANCE, transfer_syntax: Some(Oid::ber()) },
        ],
        user_data: vec![Pdv::single(1, &[0x61, 0x02, 0x80, 0x00])],
        ..Cp::default()
    };
    let wire = Ppdu::Accept(cpa).to_vec().unwrap();
    let Ppdu::Accept(back) = Ppdu::parse(&wire, true).unwrap() else { panic!("not a CPA") };
    assert!(back.all_accepted());
    assert_eq!(back.responding_psel, Some(&[0, 0, 0, 2][..]));
    assert_eq!(back.results.len(), 2);
    assert_eq!(back.user_data[0].values.single(), Some(&[0x61, 0x02, 0x80, 0x00][..]));
    assert_eq!(Ppdu::Accept(back).to_vec().unwrap(), wire);
}

#[test]
fn a_data_pdu_is_a_bare_user_data() {
    let wire = [0x61, 0x0F, 0x30, 0x0D, 0x02, 0x01, 0x03, 0xA0, 0x08, 0xA0, 0x06, 0x02, 0x02, 0x11, 0x4F, 0x82, 0x00];
    let Ppdu::UserData(pdvs) = Ppdu::parse(&wire, false).unwrap() else { panic!("not user data") };
    assert_eq!(pdvs.len(), 1);
    assert_eq!(pdvs[0].context_id, 3);
    assert_eq!(pdvs[0].values.single(), Some(&[0xA0, 0x06, 0x02, 0x02, 0x11, 0x4F, 0x82, 0x00][..]));
    assert_eq!(Ppdu::UserData(pdvs).to_vec().unwrap(), wire, "byte for byte");
}

#[test]
fn a_pdv_may_name_its_transfer_syntax() {
    let wire = [0x61, 0x0D, 0x30, 0x0B, 0x06, 0x02, 0x51, 0x01, 0x02, 0x01, 0x03, 0xA0, 0x02, 0x80, 0x00];
    let Ppdu::UserData(pdvs) = Ppdu::parse(&wire, false).unwrap() else { panic!("not user data") };
    assert_eq!(pdvs[0].context_id, 3);
    assert_eq!(pdvs[0].values.single(), Some(&[0x80, 0x00][..]));
}

#[test]
fn a_refused_connection_is_decoded_rather_than_reported_as_a_decode_failure() {
    let cpr = Cp {
        protocol_version: Some((7, &[0x80])),
        results: vec![ContextResult { result: RESULT_PROVIDER_REJECTION, transfer_syntax: None }],
        provider_reason: Some(1),
        ..Cp::default()
    };
    let wire = Ppdu::Reject(cpr).to_vec().unwrap();
    assert_eq!(wire.first(), Some(&0x30), "a CPR is a SEQUENCE, not a SET");
    let Ppdu::Reject(back) = Ppdu::parse(&wire, true).unwrap() else { panic!("not a CPR") };
    assert_eq!(back.provider_reason, Some(1));
    assert_eq!(back.results[0].result, RESULT_PROVIDER_REJECTION);
    assert!(!back.all_accepted());
    assert_eq!(Ppdu::Reject(back).to_vec().unwrap(), wire);

    let with_data = Cp { provider_reason: Some(2), user_data: vec![Pdv::single(1, &[0x64, 0x00])], ..Cp::default() };
    let wire = Ppdu::Reject(with_data).to_vec().unwrap();
    let reason_at = wire.windows(3).position(|w| w == [0x8A, 0x01, 0x02]).expect("provider-reason");
    let data_at = wire.iter().position(|b| *b == 0x61).expect("user-data");
    assert!(reason_at < data_at, "provider-reason must precede the user data");
}

#[test]
fn truncation_and_the_wrong_mode_are_errors() {
    let wire = reference_cp();
    for cut in 0..wire.len() {
        let _ = Ppdu::parse(&wire[..cut], true);
    }
    let x410 = [0x31, 0x07, 0xA0, 0x03, 0x80, 0x01, 0x00, 0x00];
    assert!(Ppdu::parse(&x410, true).is_err());
    assert!(Ppdu::parse(&[], false).is_err());
}
