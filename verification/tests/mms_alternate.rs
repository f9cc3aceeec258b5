//! Paths into variables.

use iec61850_rs::ber::{Cursor, Encoder};
use iec61850_rs::common::{Error, Selector};
use iec61850_rs::proto::mms::alternate::{Path, MAX_DEPTH};

#[test]
fn the_octets_a_second_stack_writes_for_an_array_element() {
    let one: &[u8] = &[0xa5, 0x03, 0x82, 0x01, 0x02];
    let two: &[u8] = &[0xa5, 0x0d, 0xa0, 0x0b, 0x81, 0x01, 0x02, 0x30, 0x06, 0x81, 0x04, b'c', b'V', b'a', b'l'];
    let three: &[u8] =
        &[0xa5, 0x16, 0xa0, 0x14, 0x81, 0x01, 0x02, 0x30, 0x0f, 0xa0, 0x0d, 0x80, 0x04, b'c', b'V', b'a', b'l', 0x30, 0x05, 0x81, 0x03, b'm', b'a', b'g'];
    let four: &[u8] = &[
        0xa5, 0x1d, 0xa0, 0x1b, 0x81, 0x01, 0x02, 0x30, 0x16, 0xa0, 0x14, 0x80, 0x04, b'c', b'V', b'a', b'l', 0x30, 0x0c, 0xa0, 0x0a, 0x80, 0x03, b'm',
        b'a', b'g', 0x30, 0x03, 0x81, 0x01, b'f',
    ];

    let cases: [(&[u8], Vec<Selector<'_>>, &str); 4] = [
        (one, vec![Selector::Index(2)], "(2)"),
        (two, vec![Selector::Index(2), Selector::Component("cVal")], "(2).cVal"),
        (three, vec![Selector::Index(2), Selector::Component("cVal"), Selector::Component("mag")], "(2).cVal.mag"),
        (four, vec![Selector::Index(2), Selector::Component("cVal"), Selector::Component("mag"), Selector::Component("f")], "(2).cVal.mag.f"),
    ];
    for (wire, steps, shown) in cases {
        let tlv = Cursor::new(wire).next_required().unwrap();
        let path = Path::parse(&tlv).unwrap_or_else(|e| panic!("{shown}: {e:?}"));
        assert_eq!(path.steps(), &steps[..], "{shown}");
        assert_eq!(path.to_text(), shown);
        let mut e = Encoder::new();
        path.write(&mut e).unwrap();
        assert_eq!(e.into_vec(), wire, "{shown}");
    }
}

#[test]
fn a_range_and_all_elements_round_trip_at_both_depths() {
    for steps in [
        vec![Selector::IndexRange { low: 1, count: 4 }],
        vec![Selector::AllElements],
        vec![Selector::Component("cVal"), Selector::AllElements],
        vec![Selector::IndexRange { low: 0, count: 16 }, Selector::Component("q")],
    ] {
        let path = Path::new(steps.clone());
        let mut e = Encoder::new();
        path.write(&mut e).unwrap();
        let bytes = e.into_vec();
        let tlv = Cursor::new(&bytes).next_required().unwrap();
        assert_eq!(Path::parse(&tlv).unwrap().steps(), &steps[..]);
    }
    let mut e = Encoder::new();
    Path::default().write(&mut e).unwrap();
    assert!(e.into_vec().is_empty());
}

#[test]
fn a_selection_that_picks_two_things_at_once_is_refused() {
    let wire: &[u8] = &[0xa5, 0x06, 0x81, 0x01, b'a', 0x81, 0x01, b'b'];
    let tlv = Cursor::new(wire).next_required().unwrap();
    assert!(Path::parse(&tlv).is_err());
    assert!(Path::parse(&Cursor::new(&[0xa5, 0x00]).next_required().unwrap()).is_err());
    assert!(Path::parse(&Cursor::new(&[0xa5, 0x03, 0x87, 0x01, 0x02]).next_required().unwrap()).is_err());
}

#[test]
fn a_chain_deeper_than_the_limit_is_refused() {
    let deep = Path::new(vec![Selector::Component("c"); MAX_DEPTH + 4]);
    let mut e = Encoder::new();
    deep.write(&mut e).unwrap();
    let bytes = e.into_vec();
    let tlv = Cursor::new(&bytes).next_required().unwrap();
    assert!(matches!(Path::parse(&tlv), Err(Error::LimitExceeded { limit: "alternate_access_depth", .. })));

    let ok = Path::new(vec![Selector::Component("c"); MAX_DEPTH]);
    let mut e = Encoder::new();
    ok.write(&mut e).unwrap();
    let bytes = e.into_vec();
    let tlv = Cursor::new(&bytes).next_required().unwrap();
    assert_eq!(Path::parse(&tlv).unwrap().steps().len(), MAX_DEPTH);
}
