//! The session protocol.

use iec61850_rs::proto::osi::session::{
    Connect, Spdu, MAX_EXTENDED_USER_DATA, MAX_USER_DATA, PGI_CONNECT_ACCEPT,
    PI_EXTENDED_USER_DATA, PI_USER_DATA, REQUIREMENT_DUPLEX, SI_ABORT, SI_ABORT_ACCEPT, SI_ACCEPT,
    SI_CONNECT, VERSION_2,
};

#[test]
fn a_connect_above_512_octets_uses_extended_user_data() {
    for len in [MAX_USER_DATA, MAX_USER_DATA + 1, 4096, MAX_EXTENDED_USER_DATA] {
        let payload = vec![0xABu8; len];
        let mut out = Vec::new();
        Spdu::Connect(Connect::new(Some(&[0, 1]), Some(&[0, 1]), &payload)).write(&mut out).expect("encode");
        let expected = if len > MAX_USER_DATA { PI_EXTENDED_USER_DATA } else { PI_USER_DATA };
        assert!(out.contains(&expected), "{len} octets should use parameter {expected}");
        let other = if expected == PI_USER_DATA { PI_EXTENDED_USER_DATA } else { PI_USER_DATA };
        let Ok(Spdu::Connect(back)) = Spdu::parse(&out) else { panic!("{len} did not round-trip") };
        assert_eq!(back.user_data, &payload[..], "{len} octets did not survive");
        assert_eq!(back.version, VERSION_2, "extended user data requires protocol version 2");
        let _ = other;
    }
    let too_big = vec![0u8; MAX_EXTENDED_USER_DATA + 1];
    let mut out = Vec::new();
    assert!(Spdu::Connect(Connect::new(None, None, &too_big)).write(&mut out).is_err());
}

#[test]
fn an_accept_above_512_octets_is_refused_rather_than_extended() {
    let payload = vec![0u8; MAX_USER_DATA + 1];
    let mut out = Vec::new();
    assert!(Spdu::Accept(Connect::new(None, None, &payload)).write(&mut out).is_err());
    let ok = vec![0u8; MAX_USER_DATA];
    let mut out = Vec::new();
    Spdu::Accept(Connect::new(None, None, &ok)).write(&mut out).expect("512 octets is the limit, not one below it");
}

#[test]
fn the_reference_connect_round_trips() {
    let mut wire = vec![
        SI_CONNECT, 26, // LI
        5, 6, 19, 1, 0, 22, 1, 2, // Connect/Accept Item: options 0, version 2
        20, 2, 0, 2, // duplex
        51, 2, 0, 1, // calling SSEL
        52, 2, 0, 2, // called SSEL
        193, 4, // user data
    ];
    wire.extend_from_slice(&[0x31, 0x02, 0x80, 0x00]);
    let Spdu::Connect(c) = Spdu::parse(&wire).unwrap() else { panic!("not a CN") };
    assert_eq!((c.protocol_options, c.version, c.requirements), (0, VERSION_2, REQUIREMENT_DUPLEX));
    assert_eq!(c.calling_ssel, Some(&[0, 1][..]));
    assert_eq!(c.called_ssel, Some(&[0, 2][..]));
    assert_eq!(c.user_data, &[0x31, 0x02, 0x80, 0x00]);

    let mut out = Vec::new();
    Spdu::Connect(c).write(&mut out).unwrap();
    assert_eq!(out, wire, "re-encoding must reproduce the octets");
}

#[test]
fn the_reference_accept_has_no_selectors() {
    let wire = [SI_ACCEPT, 16, 5, 6, 19, 1, 0, 22, 1, 2, 20, 2, 0, 2, 193, 2, 0xAA, 0xBB];
    let Spdu::Accept(c) = Spdu::parse(&wire).unwrap() else { panic!("not an AC") };
    assert_eq!((c.calling_ssel, c.called_ssel), (None, None));
    assert_eq!(c.user_data, &[0xAA, 0xBB]);
    let mut out = Vec::new();
    Spdu::Accept(c).write(&mut out).unwrap();
    assert_eq!(out, wire);
}

#[test]
fn data_transfer_is_two_concatenated_spdus() {
    let wire = [1u8, 0, 1, 0, 0x61, 0x0F, 0xAA];
    assert_eq!(Spdu::parse(&wire).unwrap(), Spdu::DataTransfer(&[0x61, 0x0F, 0xAA]));
    let mut out = Vec::new();
    Spdu::DataTransfer(&[0x61, 0x0F, 0xAA]).write(&mut out).unwrap();
    assert_eq!(out, wire);
    assert!(Spdu::parse(&[1, 0, 9, 0]).is_err());
}

#[test]
fn the_long_length_indicator_is_read_and_written() {
    let payload = vec![0x5Au8; 300];
    let mut wire = vec![SI_ABORT, 0xFF, 0x01, 0x30, PI_USER_DATA, 0xFF, 0x01, 0x2C];
    wire.extend_from_slice(&payload);
    assert_eq!(Spdu::parse(&wire).unwrap(), Spdu::Abort(&payload));
    let mut out = Vec::new();
    Spdu::Abort(&payload).write(&mut out).unwrap();
    assert_eq!(out, wire);
}

#[test]
fn user_data_beyond_what_the_parameter_holds_is_refused_not_truncated() {
    let big = vec![0u8; MAX_USER_DATA + 1];
    let mut out = Vec::new();
    Spdu::Connect(Connect::new(None, None, &big)).write(&mut out).expect("a CONNECT extends");
    out.clear();
    assert!(Spdu::Finish(&big).write(&mut out).is_err());
    assert!(Spdu::Disconnect(&big).write(&mut out).is_err());
    assert!(Spdu::Abort(&big).write(&mut out).is_err());
    assert!(Spdu::Refuse { reason: None, user_data: &big }.write(&mut out).is_err());

    let beyond = vec![0u8; MAX_EXTENDED_USER_DATA + 1];
    assert!(Spdu::Connect(Connect::new(None, None, &beyond)).write(&mut out).is_err());
}

#[test]
fn session_truncation_is_an_error_not_a_panic() {
    let wire = [SI_CONNECT, 16, 5, 6, 19, 1, 0, 22, 1, 2, 20, 2, 0, 2, 193, 2, 0xAA, 0xBB];
    for cut in 0..wire.len() {
        let _ = Spdu::parse(&wire[..cut]);
    }
    assert!(Spdu::parse(&[]).is_err());
    assert!(Spdu::parse(&[SI_CONNECT, 40]).is_err());
    assert!(Spdu::parse(&[SI_CONNECT, 2, 193, 9]).is_err(), "a parameter longer than the SPDU");
}

#[test]
fn abort_accept_and_unknown_spdus() {
    assert_eq!(Spdu::parse(&[SI_ABORT_ACCEPT, 0]).unwrap(), Spdu::AbortAccept);
    let mut out = Vec::new();
    Spdu::AbortAccept.write(&mut out).unwrap();
    assert_eq!(out, [SI_ABORT_ACCEPT, 0]);
    assert_eq!(Spdu::parse(&[45, 1, 7]).unwrap(), Spdu::Other { si: 45, body: &[7] });
}
#[test]
fn a_parameter_group_nested_into_itself_is_not_recursed_into() {
    let mut inner: Vec<u8> = Vec::new();
    while inner.len() < 60_000 {
        let len = inner.len();
        let mut next = Vec::with_capacity(len + 3);
        next.push(PGI_CONNECT_ACCEPT);
        if len < 0xFF {
            next.push(len as u8);
        } else {
            next.push(0xFF);
            next.extend_from_slice(&(len as u16).to_be_bytes());
        }
        next.extend_from_slice(&inner);
        inner = next;
    }
    let mut spdu = vec![SI_CONNECT, 0xFF];
    spdu.extend_from_slice(&(inner.len() as u16).to_be_bytes());
    spdu.extend_from_slice(&inner);
    assert!(matches!(Spdu::parse(&spdu), Ok(Spdu::Connect(_))));

    let real = Spdu::Connect(Connect::new(Some(&[0x00, 0x01]), Some(&[0x00, 0x01]), &[0xAA, 0xBB]));
    let mut out = Vec::new();
    real.write(&mut out).unwrap();
    let Ok(Spdu::Connect(c)) = Spdu::parse(&out) else { panic!("not a CONNECT") };
    assert_eq!((c.calling_ssel, c.called_ssel, c.user_data), (Some(&[0x00, 0x01][..]), Some(&[0x00, 0x01][..]), &[0xAA, 0xBB][..]));
}
