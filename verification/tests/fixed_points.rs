//! Whatever decodes encodes again, and decodes to the same.

use iec61850_rs::ber::Encoder;
use iec61850_rs::common::{Limits, TimeQuality, UtcTime};
use iec61850_rs::proto::data::{decode_all, Value};
use iec61850_rs::proto::goose::{GoosePdu, GoosePduView};
use iec61850_rs::proto::mms::control::{Check, ControlRequest, Origin, OriginCategory};
use iec61850_rs::proto::mms::report::{OptFlds, Report};
use iec61850_rs::proto::mms::{ConfirmedResponse, Mms};
use iec61850_rs::proto::osi::acse::Apdu;
use iec61850_rs::proto::osi::presentation::Ppdu;

#[test]
fn a_long_length_written_for_a_short_element_settles_after_one_pass() {
    let wire = [0xA0u8, 0x81, 0x06, 0x02, 0x02, 0x00, 0x07, 0x82, 0x00];
    let once = Mms::parse(&wire, &Limits::default()).unwrap().to_vec().unwrap();
    assert_eq!(once, [0xA0, 0x05, 0x02, 0x01, 0x07, 0x82, 0x00]);
    assert_eq!(Mms::parse(&once, &Limits::default()).unwrap().to_vec().unwrap(), once);
}

#[test]
fn every_prefix_of_a_pdu_is_an_error_or_a_fixed_point() {
    let pdu = Mms::ConfirmedResponse {
        invoke_id: 3,
        service: ConfirmedResponse::GetNameList { identifiers: vec!["LLN0", "GGIO1"], more_follows: true },
    };
    let octets = pdu.to_vec().unwrap();
    assert_eq!(Mms::parse(&octets, &Limits::default()).unwrap(), pdu);
    for cut in 0..octets.len() {
        assert!(Mms::parse(&octets[..cut], &Limits::default()).is_err(), "{cut}");
    }
    for i in 0..octets.len() {
        for bit in 0..8 {
            let mut changed = octets.clone();
            changed[i] ^= 1 << bit;
            if let Ok(m) = Mms::parse(&changed, &Limits::default()) {
                let once = m.to_vec().expect("what decodes has an encoding");
                let again = Mms::parse(&once, &Limits::default()).expect("which decodes");
                assert_eq!(again.to_vec().unwrap(), once);
            }
        }
    }
}

#[test]
fn values_settle_after_one_pass() {
    let wire = [0x86u8, 0x03, 0x00, 0x00, 0x2A, 0x83, 0x01, 0x01, 0xA2, 0x81, 0x03, 0x85, 0x01, 0xFE];
    let values = decode_all(&wire, &Limits::default()).unwrap();
    assert_eq!(values, [Value::Unsigned(42), Value::Boolean(true), Value::Structure(vec![Value::Integer(-2)])]);
    let mut e = Encoder::new();
    for v in &values {
        v.encode(&mut e).unwrap();
    }
    let once = e.into_vec();
    assert_eq!(once, [0x86, 0x01, 0x2A, 0x83, 0x01, 0xFF, 0xA2, 0x03, 0x85, 0x01, 0xFE]);
    assert_eq!(decode_all(&once, &Limits::default()).unwrap(), values);
}

#[test]
fn a_goose_pdu_settles_after_one_pass() {
    let pdu = GoosePdu {
        gocb_ref: "g".into(),
        time_allowed_to_live: 4,
        dat_set: "d".into(),
        go_id: Some("i".into()),
        t: UtcTime::from_unix(1, 0, TimeQuality::synchronized()),
        st_num: 1,
        sq_num: 2,
        simulation: false,
        conf_rev: 3,
        nds_com: false,
        all_data: vec![Value::Boolean(true)],
    };
    let octets = pdu.encode().unwrap();
    let view = GoosePduView::parse(&octets).unwrap();
    assert_eq!(view.raw, octets);
    let back = GoosePdu::from_view(&view, &Limits::default()).unwrap();
    assert_eq!(back, pdu);
    assert_eq!(back.encode().unwrap(), octets);
}

#[test]
fn a_control_settles_after_one_pass() {
    let mut r = ControlRequest::new(Value::Float32(1.5f32.to_bits()), 200, UtcTime::default());
    r.origin = Origin::new(OriginCategory::Other(77), "x");
    r.check = Check::both();
    let v = r.to_value();
    let back = ControlRequest::from_value(&v).unwrap();
    assert_eq!(back, r);
    assert_eq!(back.to_value(), v);
}

#[test]
fn a_report_settles_after_one_pass() {
    let o = OptFlds::none().with_buffer_overflow(true).with_entry_id(true);
    let (unused, bytes) = o.to_bit_string();
    let (pad, inclusion) = Report::inclusion_for(2, &[1]);
    let values = vec![
        Value::VisibleString("id".into()),
        Value::BitString { unused, bytes },
        Value::Boolean(true),
        Value::OctetString(vec![1, 2]),
        Value::BitString { unused: pad, bytes: inclusion },
        Value::Integer(5),
    ];
    let r = Report::from_values(&values).unwrap();
    assert_eq!((r.buf_ovfl, r.entry_id.clone(), r.entries[0].index), (Some(true), Some(vec![1, 2]), 1));
    assert_eq!(r.to_values().unwrap(), values);
    assert!(Report::from_values(&values[..5]).is_err());
    let mut longer = values.clone();
    longer.push(Value::Boolean(false));
    assert!(Report::from_values(&longer).is_err());
}

#[test]
fn association_and_presentation_pdus_settle_after_one_pass() {
    let release = [0x62u8, 0x81, 0x03, 0x80, 0x01, 0x00];
    let once = Apdu::parse(&release).unwrap().to_vec().unwrap();
    assert_eq!(once, [0x62, 0x03, 0x80, 0x01, 0x00]);
    assert_eq!(Apdu::parse(&once).unwrap().to_vec().unwrap(), once);

    let data = [0x61u8, 0x09, 0x30, 0x07, 0x02, 0x01, 0x03, 0xA0, 0x02, 0x05, 0x00];
    let once = Ppdu::parse(&data, false).unwrap().to_vec().unwrap();
    assert_eq!(once, data);
}
