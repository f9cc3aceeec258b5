//! The encoding rules everything else is written in.

use iec61850_rs::ber::{Class, Cursor, Encoder, Float, Tag};
use iec61850_rs::common::{DecodeReason, Error, UtcTime};

fn decode_error(reason: DecodeReason, offset: usize) -> Error {
    Error::Decode { reason, offset }
}

#[test]
fn each_way_an_element_can_be_broken_has_its_reason() {
    let cases: [(&[u8], DecodeReason); 6] = [
        (&[], DecodeReason::MissingField),
        (&[0x80], DecodeReason::Truncated),
        (&[0x80, 0x02, 0x01], DecodeReason::Truncated),
        (&[0x80, 0x82, 0x01], DecodeReason::Truncated),
        (&[0xA0, 0x80, 0x00, 0x00], DecodeReason::BadLength),
        (&[0x9F, 0xFF, 0xFF, 0xFF, 0xFF, 0xFF, 0x7F, 0x00], DecodeReason::BadTag),
    ];
    for (octets, reason) in cases {
        assert_eq!(Cursor::new(octets).next_required(), Err(decode_error(reason, 0)), "{octets:02x?}");
    }
}

#[test]
fn offsets_are_those_of_the_whole_buffer() {
    let octets = [0xA0, 0x05, 0x80, 0x01, 0x07, 0x81, 0x00];
    let outer = Cursor::new(&octets).next_required().unwrap();
    let mut c = outer.children();
    let first = c.next_required().unwrap();
    assert_eq!((first.offset, first.value_offset, first.total_len()), (2, 4, 3));
    let second = c.next_required().unwrap();
    assert_eq!((second.offset, second.value_offset, second.total_len()), (5, 7, 2));
    assert_eq!(second.integer_i64(), Err(decode_error(DecodeReason::BadLength, 7)));
    assert_eq!(first.expect(Tag::context(1)), Err(decode_error(DecodeReason::UnexpectedTag, 2)));
    assert!(c.next().is_none());
    assert_eq!(c.finish(), Ok(()));
    let mut short = outer.children();
    short.next_required().unwrap();
    assert_eq!(short.finish(), Err(decode_error(DecodeReason::TrailingBytes, 5)));
}

#[test]
fn a_long_tag_number_takes_more_octets() {
    let mut e = Encoder::new();
    e.null(Tag::context(30));
    e.null(Tag::context(31));
    e.null(Tag::context_constructed(200));
    assert_eq!(e.as_bytes(), [0x9E, 0x00, 0x9F, 0x1F, 0x00, 0xBF, 0x81, 0x48, 0x00]);
    let octets = e.into_vec();
    let mut c = Cursor::new(&octets);
    let numbers: Vec<u32> = (0..3).map(|_| c.next_required().unwrap().tag.number).collect();
    assert_eq!(numbers, [30, 31, 200]);
}

#[test]
fn a_long_length_takes_more_octets() {
    for (n, header) in [(127, vec![0x89, 0x7F]), (128, vec![0x89, 0x81, 0x80]), (256, vec![0x89, 0x82, 0x01, 0x00])] {
        let mut e = Encoder::new();
        e.primitive(Tag::context(9), &vec![0xAA; n]);
        assert_eq!(e.as_bytes()[..header.len()], header[..]);
        assert_eq!(e.len(), header.len() + n);
        let octets = e.into_vec();
        let t = Cursor::new(&octets).next_required().unwrap();
        assert_eq!((t.value.len(), t.value_offset), (n, header.len()));
    }
}

#[test]
fn integers_are_minimal_and_signed() {
    for (v, octets) in [
        (0i64, vec![0x00]),
        (127, vec![0x7F]),
        (128, vec![0x00, 0x80]),
        (-1, vec![0xFF]),
        (-128, vec![0x80]),
        (-129, vec![0xFF, 0x7F]),
        (i64::MIN, vec![0x80, 0, 0, 0, 0, 0, 0, 0]),
    ] {
        let mut e = Encoder::new();
        e.integer(Tag::context(5), v);
        assert_eq!(e.as_bytes()[2..], octets[..], "{v}");
        let b = e.into_vec();
        assert_eq!(Cursor::new(&b).next_required().unwrap().integer_i64(), Ok(v));
    }
}

#[test]
fn an_unsigned_number_is_read_with_or_without_its_sign_octet() {
    for octets in [&[0x86u8, 0x01, 0xFF][..], &[0x86, 0x02, 0x00, 0xFF]] {
        let t = Cursor::new(octets).next_required().unwrap();
        assert_eq!(t.unsigned_lenient_u32(), Ok(255));
    }
    let mut e = Encoder::new();
    e.unsigned(Tag::context(6), u64::MAX);
    assert_eq!(e.len(), 11);
    let b = e.into_vec();
    let t = Cursor::new(&b).next_required().unwrap();
    assert_eq!(t.unsigned_lenient_u64(), Ok(u64::MAX));
    assert_eq!(t.unsigned_lenient_u32(), Err(decode_error(DecodeReason::BadValue, 2)));
    let nine = [0x86, 0x09, 0x01, 0, 0, 0, 0, 0, 0, 0, 0];
    let t = Cursor::new(&nine).next_required().unwrap();
    assert_eq!(t.unsigned_lenient_u64(), Err(decode_error(DecodeReason::BadValue, 2)));
}

#[test]
fn a_utf8_string_is_decoded_as_text_and_anything_else_refused() {
    let mut e = Encoder::new();
    e.utf8_string(Tag::context(16), "Z\u{fc}rich \u{2192} \u{1f600}");
    assert_eq!(e.len(), 18);
    let b = e.into_vec();
    let t = Cursor::new(&b).next_required().unwrap();
    let s = t.utf8_string().unwrap();
    assert_eq!(s, "Z\u{fc}rich \u{2192} \u{1f600}");
    assert_eq!(s.chars().count(), 10);
    assert_eq!(t.visible_string(), Err(decode_error(DecodeReason::BadValue, 2)));
    for octets in [&[0xC3u8][..], &[0xC0, 0x80], &[0xED, 0xA0, 0x80], &[0xF4, 0x90, 0x80, 0x80]] {
        let mut e = Encoder::new();
        e.primitive(Tag::context(16), octets);
        let b = e.into_vec();
        let t = Cursor::new(&b).next_required().unwrap();
        assert_eq!(t.utf8_string(), Err(decode_error(DecodeReason::BadValue, 2)), "{octets:02x?}");
    }
}

#[test]
fn a_visible_string_has_to_be_ascii_both_ways() {
    let mut e = Encoder::new();
    assert_eq!(e.visible_string(Tag::context(10), "LLN0$ST"), Ok(()));
    assert_eq!(e.as_bytes(), b"\x8A\x07LLN0$ST");
    assert!(matches!(e.visible_string(Tag::context(10), "\u{fc}"), Err(Error::Encode(_))));
    assert_eq!(e.opt_visible_string(Tag::context(10), None), Ok(()));
    assert_eq!(e.len(), 9);
}

#[test]
fn a_bit_string_has_at_most_seven_unused_bits() {
    let mut e = Encoder::new();
    assert_eq!(e.bit_string(Tag::context(4), 3, &[0xF8]), Ok(()));
    assert_eq!(e.as_bytes(), [0x84, 0x02, 0x03, 0xF8]);
    assert!(e.bit_string(Tag::context(4), 8, &[0xF8]).is_err());
    assert!(e.bit_string(Tag::context(4), 1, &[]).is_err());
    let empty = [0x84, 0x00];
    assert_eq!(Cursor::new(&empty).next_required().unwrap().bit_string(), Err(decode_error(DecodeReason::BadLength, 2)));
    let wrong = [0x84, 0x02, 0x08, 0xF8];
    assert_eq!(Cursor::new(&wrong).next_required().unwrap().bit_string(), Err(decode_error(DecodeReason::BadValue, 2)));
}

#[test]
fn floats_keep_their_width_and_their_bits() {
    let mut e = Encoder::new();
    e.float32(Tag::context(7), 1.5f32.to_bits());
    e.float64(Tag::context(7), (-0.25f64).to_bits());
    assert_eq!(e.as_bytes()[..7], [0x87, 0x05, 0x08, 0x3F, 0xC0, 0x00, 0x00]);
    let b = e.into_vec();
    let mut c = Cursor::new(&b);
    assert_eq!(c.next_required().unwrap().floating_point(), Ok(Float::Single(1.5f32.to_bits())));
    assert_eq!(c.next_required().unwrap().floating_point(), Ok(Float::Double((-0.25f64).to_bits())));
    let wrong = [0x87, 0x05, 0x0B, 0, 0, 0, 0];
    assert_eq!(Cursor::new(&wrong).next_required().unwrap().floating_point(), Err(decode_error(DecodeReason::BadValue, 2)));
}

#[test]
fn optional_fields_are_taken_only_under_their_own_tag() {
    let mut e = Encoder::new();
    e.flag(Tag::context(0), false, false);
    e.flag(Tag::context(1), true, false);
    e.opt_integer(Tag::context(2), Some(-5));
    e.opt_unsigned(Tag::context(3), None);
    e.utc_time(Tag::context(4), UtcTime { raw: 0x0102_0304_0506_0708 });
    assert_eq!(e.as_bytes(), [0x81, 0x01, 0xFF, 0x82, 0x01, 0xFB, 0x84, 0x08, 1, 2, 3, 4, 5, 6, 7, 8]);
    let b = e.into_vec();
    let mut c = Cursor::new(&b);
    assert_eq!(c.next_flag(Tag::context(0), false), Ok(false));
    assert_eq!(c.next_flag(Tag::context(1), false), Ok(true));
    assert_eq!(c.next_opt_integer(Tag::context(2)), Ok(Some(-5)));
    assert_eq!(c.next_opt_unsigned32(Tag::context(3)), Ok(None));
    let t = c.next_tag(Tag::context(4)).unwrap();
    assert_eq!(t.utc_time(), Ok(UtcTime { raw: 0x0102_0304_0506_0708 }));
    assert_eq!(t.tag.class, Class::Context);
    assert!(c.is_empty());
}
