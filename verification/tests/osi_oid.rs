//! Object identifiers.

use iec61850_rs::proto::osi::oid::{encode, Oid};

#[test]
fn the_identifiers_this_profile_uses_decode_to_their_names() {
    assert_eq!(Oid::acse_abstract_syntax().to_text(), "2.2.1.0.1");
    assert_eq!(Oid::mms_abstract_syntax().to_text(), "1.0.9506.2.1");
    assert_eq!(Oid::mms_application_context().to_text(), "1.0.9506.2.3");
    assert_eq!(Oid::mms_application_context_9506().to_text(), "1.0.9506.1.1");
    assert_eq!(Oid::ber().to_text(), "2.1.1");
    assert_eq!(Oid::password_mechanism().to_text(), "2.2.3.1");
    assert_eq!(Oid(&[0x29, 0x02]).to_text(), "1.1.2");
    assert_eq!(Oid(&[0x29, 0x01]).to_text(), "1.1.1");
}

#[test]
fn arcs_encode_back_to_the_octets_they_came_from() {
    for oid in [Oid::acse_abstract_syntax(), Oid::mms_abstract_syntax(), Oid::mms_application_context(), Oid::ber(), Oid::password_mechanism()] {
        let arcs: Vec<u32> = oid.arcs().collect();
        assert_eq!(encode(&arcs).as_deref(), Some(oid.0), "{oid:?}");
    }
    let title = encode(&[1, 3, 9999, 23]).unwrap();
    assert_eq!(Oid(&title).to_text(), "1.3.9999.23");
    assert_eq!(encode(&[1]), None, "the first octet holds two arcs");
    assert_eq!(encode(&[3, 1]), None, "there is no root arc 3");
    assert_eq!(encode(&[2, u32::MAX]), None);
    assert_eq!(encode(&[2, u32::MAX - 79]), None);
    assert_eq!(Oid(&encode(&[2, u32::MAX - 80]).unwrap()).arcs().collect(), [2, u32::MAX - 80]);
}

#[test]
fn a_malformed_identifier_ends_rather_than_looping() {
    assert_eq!(Oid(&[]).arcs().collect(), Vec::<u32>::new());
    assert_eq!(Oid(&[0x80]).arcs().collect().len(), 0);
    assert_eq!(Oid(&[0xFF; 8]).arcs().collect().len(), 0, "an arc that overflows u32 ends the walk");
}
