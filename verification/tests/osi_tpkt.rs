//! TPKT.

use iec61850_rs::proto::osi::tpkt::{header, packet_len, Reader, HEADER_LEN, MAX_PACKET};

#[test]
fn a_header_split_across_segments_still_frames() {
    let mut r = Reader::new();
    r.push(&[0x03, 0x00]);
    assert!(r.next_tpdu().unwrap().is_none());
    r.push(&[0x00, 0x07, 0x02]);
    assert!(r.next_tpdu().unwrap().is_none(), "the payload is still short");
    r.push(&[0xF0, 0x80]);
    assert_eq!(r.next_tpdu().unwrap(), Some(&[0x02, 0xF0, 0x80][..]));
    assert!(r.next_tpdu().unwrap().is_none());
    assert_eq!(r.buffered(), 0);
}

#[test]
fn several_packets_in_one_read_come_out_one_at_a_time() {
    let mut r = Reader::new();
    r.push(&[0x03, 0x00, 0x00, 0x05, 0xAA, 0x03, 0x00, 0x00, 0x06, 0xBB, 0xCC, 0x03]);
    assert_eq!(r.next_tpdu().unwrap(), Some(&[0xAA][..]));
    assert_eq!(r.next_tpdu().unwrap(), Some(&[0xBB, 0xCC][..]));
    assert_eq!(r.next_tpdu().unwrap(), None);
    assert_eq!(r.buffered(), 1, "the start of the third packet is kept");
}

#[test]
fn a_stream_that_is_not_tpkt_is_an_error_not_a_resynchronisation() {
    let mut r = Reader::new();
    r.push(&[0x16, 0x03, 0x01, 0x00]); // a TLS record: someone connected to the wrong port
    assert!(r.next_tpdu().is_err());
    let mut z = Reader::new();
    z.push(&[0x03, 0x00, 0x00, 0x02]);
    assert!(z.next_tpdu().is_err(), "a length below the header is not a packet");
}

#[test]
fn headers_round_trip() {
    assert_eq!(header(3).unwrap(), [3, 0, 0, 7]);
    assert_eq!(packet_len(&header(3).unwrap()).unwrap(), Some(7));
    assert_eq!(header(MAX_PACKET - HEADER_LEN).unwrap(), [3, 0, 0xFF, 0xFF]);
    assert!(header(MAX_PACKET).is_err());
}
