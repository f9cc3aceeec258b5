//! File names.

use iec61850_rs::ber::{Cursor, Encoder, Tag};
use iec61850_rs::common::Limits;
use iec61850_rs::proto::mms::file::{FileName, FileNameBuf};

#[test]
fn a_path_is_one_component_and_reads_back_as_the_path() {
    let buf = FileNameBuf::from_path("COMTRADE/rec0001.cfg").unwrap();
    let name = buf.as_name();
    assert_eq!(name.components(), ["COMTRADE/rec0001.cfg"]);
    assert_eq!(name.display(), "COMTRADE/rec0001.cfg");
    let split = FileNameBuf::from_components(&["COMTRADE", "rec0001.cfg"]).unwrap();
    assert_eq!(split.as_name().display(), "COMTRADE/rec0001.cfg");
    assert_eq!(split.as_name().components().len(), 2);
}

#[test]
fn a_file_name_survives_a_decode_and_re_encode() {
    let buf = FileNameBuf::from_components(&["a", "b"]).unwrap();
    let mut e = Encoder::new();
    let mut contents = Encoder::new();
    buf.as_name().write_contents(&mut contents);
    e.constructed(Tag::context_constructed(0), &contents);
    let bytes = e.into_vec();
    let t = Cursor::new(&bytes).next_required().unwrap();
    let name = FileName::parse(&t, &Limits::default()).unwrap();
    assert_eq!(name.as_encoded(), buf.as_name().as_encoded());
}
