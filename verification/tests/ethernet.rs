//! The link-layer header.

use iec61850_rs::proto::ethernet::{
    Frame, FrameAddress, FrameHeader, MacAddr, VlanTag, ETHERTYPE_GOOSE, ETHERTYPE_SV,
    RESERVED1_SIMULATION,
};

#[test]
fn header_round_trip_with_vlan() {
    let h = FrameHeader {
        dst: MacAddr::goose_base(),
        src: MacAddr([2, 0, 0, 0, 0, 1]),
        vlan: Some(VlanTag { priority: 4, dei: false, id: 1 }),
        ethertype: ETHERTYPE_GOOSE,
        appid: 0x0003,
        reserved1: RESERVED1_SIMULATION,
        reserved2: 0,
    };
    let apdu = [0x61, 0x02, 0x80, 0x00];
    let frame = h.to_frame(&apdu).unwrap();
    assert_eq!(frame.len(), 18 + 8 + 4);
    let p = Frame::parse(&frame).unwrap();
    assert_eq!(p.vlan, h.vlan);
    assert_eq!(p.appid, 3);
    assert_eq!(p.length, 12);
    assert!(p.simulation());
    assert_eq!(p.apdu, &apdu);
    assert_eq!(p.apdu_offset, 26);
    assert!(p.dst.is_goose_multicast());
    assert!(!p.dst.is_sv_multicast());
}

#[test]
fn rejects_non_process_bus() {
    let mut f = [0u8; 60];
    f[12] = 0x08;
    assert!(Frame::parse(&f).is_err());
    assert!(Frame::parse(&f[..10]).is_err());
    let h = FrameHeader { dst: MacAddr::sv_base(), src: MacAddr::default(), vlan: None, ethertype: ETHERTYPE_SV, appid: 0x4000, reserved1: 0, reserved2: 0 };
    let mut frame = h.to_frame(&[0x60, 0x00]).unwrap();
    frame[16] = 0xFF; // bogus length
    assert!(Frame::parse(&frame).is_err());
}

#[test]
fn the_address_is_readable_even_when_the_frame_is_not() {
    let h = FrameHeader {
        dst: MacAddr::goose_base(),
        src: MacAddr::default(),
        vlan: Some(VlanTag::default()),
        ethertype: ETHERTYPE_GOOSE,
        appid: 0x0007,
        reserved1: 0,
        reserved2: 0,
    };
    let frame = h.to_frame(&[0x61, 0x02, 0x80, 0x00]).unwrap();
    let want = FrameAddress { dst: MacAddr::goose_base(), ethertype: ETHERTYPE_GOOSE, appid: 7 };
    assert_eq!(FrameAddress::peek(&frame), Some(want));
    assert!(Frame::parse(&frame[..24]).is_err());
    assert_eq!(FrameAddress::peek(&frame[..24]), Some(want));
    assert_eq!(FrameAddress::peek(&[0u8; 60]), None);
    assert_eq!(FrameAddress::peek(&frame[..8]), None);
}

#[test]
fn mac_parse_display() {
    let m = MacAddr::parse("01-0c-cd-04-01-ff").unwrap();
    assert!(m.is_sv_multicast());
    assert_eq!(m.to_text(), "01-0C-CD-04-01-FF");
    assert!(MacAddr::parse("01-0c-cd").is_err());
}
