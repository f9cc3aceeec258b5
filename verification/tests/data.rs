//! The `Data` codec and its typed accessors.

use iec61850_rs::ber::{Cursor, Float};
use iec61850_rs::common::{Error, Limits, Quality, TimeQuality, UtcTime};
use iec61850_rs::proto::data::{decode_all, DataView, Dbpos, Typed, Value};

#[test]
fn encode_decode_round_trip() {
    let values = vec![
        Value::Boolean(true),
        Value::quality(Quality::good()),
        Value::Integer(-5),
        Value::Unsigned(300),
        Value::Float32(2.5f32.to_bits()),
        Value::Float64((-1.5f64).to_bits()),
        Value::VisibleString(String::from("SEL")),
        Value::UtcTime(UtcTime::default()),
        Value::Structure(vec![Value::Boolean(false), Value::dbpos(Dbpos::On)]),
        Value::OctetString(vec![1, 2, 3]),
    ];
    let bytes = Value::encode_all(&values).unwrap();
    assert_eq!(decode_all(&bytes, &Limits::default()).unwrap(), values, "every value must survive a round trip unchanged");
}

#[test]
fn typed_accessors_read_what_is_there_and_nothing_else() {
    let t = UtcTime::from_unix(1_700_000_000, 0, TimeQuality::synchronized());
    let pos = Value::Structure(vec![Value::dbpos(Dbpos::On), Value::quality(Quality::good()), Value::UtcTime(t)]);
    assert_eq!(pos.member(0).and_then(Typed::as_dbpos), Some(Dbpos::On));
    assert_eq!(pos.member(1).and_then(Typed::as_quality), Some(Quality::good()));
    assert_eq!(pos.member(2).and_then(Typed::as_utc_time), Some(t));
    assert_eq!(pos.members().map(<[Value]>::len), Some(3));
    assert!(pos.as_bool().is_none(), "a structure is not a boolean");

    assert_eq!(Value::Integer(1).as_bool(), None);
    assert_eq!(Value::Boolean(true).as_i64(), None);
    assert_eq!(Value::Unsigned(7).as_i64(), None);
    assert_eq!(Value::Float32(1.5f32.to_bits()).as_float(), Some(Float::Single(1.5f32.to_bits())));
    assert_eq!(Value::Float64(1.5f64.to_bits()).as_float(), Some(Float::Double(1.5f64.to_bits())));
    assert_eq!(Value::VisibleString(String::from("SEL")).as_str(), Some("SEL"));

    assert_eq!(Value::quality(Quality::good()).as_dbpos(), None);
    assert_eq!(Value::dbpos(Dbpos::On).as_quality(), None, "two bits are not a quality");

    let bytes = Value::encode_all(&[pos]).unwrap();
    let member = DataView::from_tlv(Cursor::new(&bytes).next_required().unwrap()).unwrap();
    let mut fields = member.members().unwrap();
    let first = DataView::from_tlv(fields.next_required().unwrap()).unwrap();
    assert_eq!(first.as_dbpos(), Some(Dbpos::On));
    let second = DataView::from_tlv(fields.next_required().unwrap()).unwrap();
    assert_eq!(second.as_quality(), Some(Quality::good()));
}

#[test]
fn dbpos_keeps_the_two_states_a_bool_would_lose() {
    for pos in [Dbpos::Intermediate, Dbpos::Off, Dbpos::On, Dbpos::BadState] {
        assert_eq!(Value::dbpos(pos).as_dbpos(), Some(pos));
        assert_eq!(Dbpos::from_code(pos.to_code()), pos);
    }
    assert!(Dbpos::On.is_on());
    assert!(!Dbpos::BadState.is_on(), "a disconnector reporting both contacts closed is not closed");
    assert!(!Dbpos::Intermediate.is_on(), "one in transit is not closed either");
}

#[test]
fn limits_are_enforced() {
    let deep = (0..40).fold(Value::Boolean(true), |v, _| Value::Structure(vec![v]));
    let bytes = Value::encode_all(&[deep]).unwrap();
    assert!(matches!(decode_all(&bytes, &Limits::default()), Err(Error::LimitExceeded { limit: "max_depth", .. })));
    let many: Vec<Value> = (0..600).map(|_| Value::Boolean(true)).collect();
    let bytes = Value::encode_all(&many).unwrap();
    assert!(matches!(decode_all(&bytes, &Limits::default()), Err(Error::LimitExceeded { limit: "max_dataset_members", .. })));
}
