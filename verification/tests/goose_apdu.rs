//! The GOOSE APDU.

use iec61850_rs::ber::{Cursor, Encoder, Tag};
use iec61850_rs::common::{Limits, Quality, TimeQuality, UtcTime};
use iec61850_rs::proto::data::Value;
use iec61850_rs::proto::goose::{encode_into, tag_goose_pdu, GoosePdu, GoosePduView};

fn sample() -> GoosePdu {
    GoosePdu {
        gocb_ref: String::from("IED1LD0/LLN0$GO$gcb1"),
        time_allowed_to_live: 2000,
        dat_set: String::from("IED1LD0/LLN0$ds1"),
        go_id: Some(String::from("IED1")),
        t: UtcTime::from_unix(1_700_000_000, 0, TimeQuality::synchronized()),
        st_num: 23,
        sq_num: 521,
        simulation: false,
        conf_rev: 1,
        nds_com: false,
        all_data: vec![Value::Boolean(true), Value::quality(Quality::good())],
    }
}

#[test]
fn round_trip() {
    let pdu = sample();
    let bytes = pdu.encode().unwrap();
    assert_eq!(bytes[0], 0x61);
    let v = GoosePduView::parse(&bytes).unwrap();
    assert_eq!(v.gocb_ref, pdu.gocb_ref);
    assert_eq!((v.st_num, v.sq_num, v.num_dat_set_entries), (23, 521, 2));
    assert_eq!(v.go_id, Some("IED1"));
    assert!(v.member_count_matches());
    assert_eq!(v.all_data().len(), 2);
    assert_eq!(GoosePdu::from_view(&v, &Limits::default()).unwrap(), pdu);
    assert_eq!(v.raw, &bytes[..]);
}

#[test]
fn member_count_is_checked_against_the_declaration() {
    let mut pdu = sample();
    let honest = pdu.encode().unwrap();
    assert!(GoosePduView::parse(&honest).unwrap().member_count_matches());
    pdu.all_data.push(Value::Boolean(false));
    let body = Value::encode_all(&pdu.all_data[..2]).unwrap();
    let mut e = Encoder::new();
    encode_into(&pdu.header(), &body, &mut e).unwrap();
    let lying = e.into_vec();
    let v = GoosePduView::parse(&lying).unwrap();
    assert_eq!(v.num_dat_set_entries, 3);
    assert_eq!(v.member_count(), Some(2));
    assert!(!v.member_count_matches());
}

#[test]
fn optional_defaults_may_be_omitted_on_the_wire() {
    let full = sample().encode().unwrap();
    let mut stripped = Vec::new();
    let mut c = Cursor::new(&full).next_required().unwrap().children();
    let mut inner = Encoder::new();
    while let Some(Ok(t)) = c.next() {
        if matches!(t.tag.number, 7 | 9) && t.tag == Tag::context(t.tag.number) {
            continue;
        }
        inner.raw(full.get(t.offset..t.offset + t.total_len()).unwrap());
    }
    let body = inner.into_vec();
    let mut e = Encoder::new();
    let mut contents = Encoder::new();
    contents.raw(&body);
    e.constructed(tag_goose_pdu(), &contents);
    stripped.extend_from_slice(e.as_bytes());
    let v = GoosePduView::parse(&stripped).unwrap();
    assert!(!v.simulation && !v.nds_com);
    assert_eq!(v.st_num, 23);
    assert_eq!(v.all_data().len(), 2);
}

#[test]
fn a_constructed_security_extension_is_accepted() {
    let pdu = sample();
    let body = Value::encode_all(&pdu.all_data).unwrap();
    let mut inner = Encoder::new();
    encode_into(&pdu.header(), &body, &mut inner).unwrap();
    let inner = inner.into_vec();
    let content = &inner[2..];
    let mut e = Encoder::new();
    let mut extension = Encoder::new();
    extension.primitive(Tag::universal(4, false), &[0xAA; 16]);
    let mut contents = Encoder::new();
    contents.raw(content);
    contents.constructed(Tag::context_constructed(12), &extension);
    e.constructed(tag_goose_pdu(), &contents);
    let bytes = e.into_vec();
    let v = GoosePduView::parse(&bytes).unwrap();
    assert_eq!(v.security.map(<[u8]>::len), Some(18));
    assert_eq!(v.st_num, 23);
}

#[test]
fn apdu_truncation_is_an_error_not_a_panic() {
    let bytes = sample().encode().unwrap();
    for cut in 0..bytes.len() {
        assert!(GoosePduView::parse(&bytes[..cut]).is_err());
    }
}
