//! Type specifications.

use iec61850_rs::ber::{Cursor, Encoder};
use iec61850_rs::common::{Error, Limits};
use iec61850_rs::proto::mms::typespec::{Component, TypeSpec};

fn round_trip(spec: &TypeSpec) -> TypeSpec {
    let mut e = Encoder::new();
    spec.write(&mut e).unwrap();
    let bytes = e.into_vec();
    let back = TypeSpec::parse(&Cursor::new(&bytes).next_required().unwrap(), &Limits::default()).unwrap();
    assert_eq!(&back, spec);
    back
}

#[test]
fn a_floating_point_type_is_the_octets_the_field_writes() {
    const VENDOR: &[u8] = &[
        0xa2, 0x31, 0xa1, 0x2f, 0x30, 0x1a, 0x80, 0x03, b'm', b'a', b'g', 0xa1, 0x13, 0xa2, 0x11, 0xa1, 0x0f, 0x30, 0x0d, 0x80, 0x01, b'f', 0xa1, 0x08,
        0xa7, 0x06, 0x02, 0x01, 0x20, 0x02, 0x01, 0x08, 0x30, 0x08, 0x80, 0x01, b'q', 0xa1, 0x03, 0x84, 0x01, 0xf3, 0x30, 0x07, 0x80, 0x01, b't', 0xa1,
        0x02, 0x91, 0x00,
    ];
    let spec = TypeSpec::parse(&Cursor::new(VENDOR).next_required().unwrap(), &Limits::default()).expect("the field's octets decode");
    assert_eq!(spec.component_names(), ["mag", "q", "t"]);
    assert_eq!(spec.component("mag").and_then(|m| m.component("f")), Some(&TypeSpec::FloatingPoint { format_width: 32, exponent_width: 8 }));
    let mut e = Encoder::new();
    spec.write(&mut e).unwrap();
    assert_eq!(e.into_vec(), VENDOR);
}

#[test]
fn the_older_context_tagged_widths_are_still_accepted() {
    const LEGACY: &[u8] = &[0xa7, 0x06, 0x80, 0x01, 0x40, 0x81, 0x01, 0x0b];
    let spec = TypeSpec::parse(&Cursor::new(LEGACY).next_required().unwrap(), &Limits::default()).expect("decode");
    assert_eq!(spec, TypeSpec::FloatingPoint { format_width: 64, exponent_width: 11 });
    assert!(TypeSpec::parse(&Cursor::new(&[0xa7, 0x06, 0x83, 0x01, 0x40, 0x81, 0x01, 0x0b]).next_required().unwrap(), &Limits::default()).is_err());
}

#[test]
fn the_shape_of_an_oper_is_what_a_client_needs_before_it_writes_one() {
    let oper = TypeSpec::Structure {
        packed: false,
        components: vec![
            Component { name: Some(String::from("ctlVal")), type_spec: TypeSpec::BitString(2) },
            Component {
                name: Some(String::from("origin")),
                type_spec: TypeSpec::Structure {
                    packed: false,
                    components: vec![
                        Component { name: Some(String::from("orCat")), type_spec: TypeSpec::Integer(8) },
                        Component { name: Some(String::from("orIdent")), type_spec: TypeSpec::OctetString(-64) },
                    ],
                },
            },
            Component { name: Some(String::from("ctlNum")), type_spec: TypeSpec::Unsigned(8) },
            Component { name: Some(String::from("T")), type_spec: TypeSpec::UtcTime },
            Component { name: Some(String::from("Test")), type_spec: TypeSpec::Boolean },
            Component { name: Some(String::from("Check")), type_spec: TypeSpec::BitString(2) },
        ],
    };
    let back = round_trip(&oper);
    assert_eq!(back.component_names(), ["ctlVal", "origin", "ctlNum", "T", "Test", "Check"]);
    assert_eq!(back.component("Check"), Some(&TypeSpec::BitString(2)));
    assert_eq!(back.component("origin").and_then(|o| o.component("orIdent")), Some(&TypeSpec::OctetString(-64)));
}

#[test]
fn every_simple_type_round_trips() {
    for spec in [
        TypeSpec::Boolean,
        TypeSpec::BitString(13),
        TypeSpec::Integer(32),
        TypeSpec::Unsigned(16),
        TypeSpec::FloatingPoint { format_width: 32, exponent_width: 8 },
        TypeSpec::OctetString(-8),
        TypeSpec::VisibleString(129),
        TypeSpec::GeneralizedTime,
        TypeSpec::BinaryTime(true),
        TypeSpec::Bcd(4),
        TypeSpec::MmsString(-255),
        TypeSpec::UtcTime,
        TypeSpec::Named { domain: Some(String::from("LD0")), item: String::from("MyType") },
        TypeSpec::Named { domain: None, item: String::from("Global") },
        TypeSpec::Array { packed: false, elements: 4, element_type: Box::new(TypeSpec::Boolean) },
    ] {
        round_trip(&spec);
    }
}

#[test]
fn a_type_nested_deeper_than_the_limit_is_refused_rather_than_recursed() {
    let deep =
        (0..40).fold(TypeSpec::Boolean, |t, _| TypeSpec::Structure { packed: false, components: vec![Component { name: None, type_spec: t }] });
    let mut e = Encoder::new();
    deep.write(&mut e).unwrap();
    let bytes = e.into_vec();
    assert!(matches!(
        TypeSpec::parse(&Cursor::new(&bytes).next_required().unwrap(), &Limits::default()),
        Err(Error::LimitExceeded { limit: "max_depth", .. })
    ));
}
