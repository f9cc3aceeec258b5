//! The MMS PDUs.

use iec61850_rs::ber::{Cursor, Encoder, Float, Tag, UNIVERSAL_INTEGER, UNIVERSAL_SEQUENCE};
use iec61850_rs::common::{Error, Limits};
use iec61850_rs::proto::data::{Typed, Value};
use iec61850_rs::proto::mms::delete_scope;
use iec61850_rs::proto::mms::file::{
    tag_graphic_string, DirectoryEntry, FileAttributes, FileName, FileNameBuf,
};
use iec61850_rs::proto::mms::journal::{
    AfterEntry, JournalEntry, JournalVariable, RangeStop, TimeOfDay,
};
use iec61850_rs::proto::mms::names::tag_identifier;
use iec61850_rs::proto::mms::request::SERVICE_FILE_DIRECTORY;
use iec61850_rs::proto::mms::typespec::TypeSpec;
use iec61850_rs::proto::mms::variables::parse_variable_list;
use iec61850_rs::proto::mms::{
    AccessResult, ConfirmedRequest, ConfirmedResponse, Mms, ObjectName, ObjectScope, ReadJournal,
    ServiceError, Unconfirmed, VariableAccess, VariableSpecification, WriteResult,
};

#[test]
fn a_name_list_may_be_larger_than_a_data_set() {

    let names: Vec<String> = (0..2_000).map(|i| format!("GGIO1$ST$Ind{i}$stVal")).collect();
    let borrowed: Vec<&str> = names.iter().map(String::as_str).collect();
    let pdu = Mms::ConfirmedResponse { invoke_id: 1, service: ConfirmedResponse::GetNameList { identifiers: borrowed, more_follows: false } }
        .to_vec()
        .expect("encode");
    match Mms::parse(&pdu, &Limits::default()).expect("a real device's namespace decodes") {
        Mms::ConfirmedResponse { service: ConfirmedResponse::GetNameList { identifiers, .. }, .. } => assert_eq!(identifiers.len(), 2_000),
        other => panic!("not a name list: {other:?}"),
    }
    let tight = Limits { max_list_items: 100, ..Limits::default() };
    assert!(matches!(Mms::parse(&pdu, &tight), Err(Error::LimitExceeded { limit: "max_list_items", .. })));

    let mut e = Encoder::new();
    let mut variables = Encoder::new();
    for _ in 0..600 {
        let mut name = Encoder::new();
        name.visible_string(tag_identifier(), "IED1LD0").unwrap();
        name.visible_string(tag_identifier(), "GGIO1$ST$Ind1$stVal").unwrap();
        let mut domain = Encoder::new();
        domain.constructed(Tag::context_constructed(1), &name);
        let mut specification = Encoder::new();
        specification.constructed(Tag::context_constructed(0), &domain);
        variables.constructed(Tag::universal(UNIVERSAL_SEQUENCE, true), &specification);
    }
    e.constructed(Tag::universal(UNIVERSAL_SEQUENCE, true), &variables);
    let list = e.into_vec();
    let tlv = Cursor::new(&list).next_required().unwrap();
    assert!(matches!(parse_variable_list(&tlv, &Limits::default()), Err(Error::LimitExceeded { limit: "max_dataset_members", .. })));
}

#[test]
fn an_invoke_identifier_outside_unsigned32_is_not_a_pdu() {
    let wire = [0xA0u8, 0x05, 0x02, 0x01, 0xFF, 0x9B, 0x00];
    assert!(Mms::parse(&wire, &Limits::default()).is_err(), "invokeID -1");

    let wire = [0xA0u8, 0x09, 0x02, 0x05, 0x01, 0x00, 0x00, 0x00, 0x00, 0x9B, 0x00];
    assert!(Mms::parse(&wire, &Limits::default()).is_err(), "invokeID above u32::MAX");

    for id in [0u32, 1, 0x7FFF_FFFF, u32::MAX] {
        let pdu = Mms::ConfirmedRequest { invoke_id: i64::from(id), service: ConfirmedRequest::Identify };
        let bytes = pdu.to_vec().unwrap();
        let back = Mms::parse(&bytes, &Limits::default()).unwrap();
        assert_eq!(back.invoke_id(), Some(i64::from(id)), "{id}");
    }
}

fn round_trip(wire: &[u8]) -> Mms<'_> {
    let pdu = Mms::parse(wire, &Limits::default()).expect("decode");
    assert_eq!(pdu.to_vec().expect("encode"), wire, "re-encoding must reproduce the octets");
    pdu
}

#[test]
fn a_service_error_tagged_like_a_modifier_position_still_re_encodes() {
    let wire: &[u8] = &[0xA2, 0x0D, 0x80, 0x01, 0x07, 0x81, 0x01, 0x02, 0xA2, 0x05, 0xA0, 0x03, 0x87, 0x01, 0x0A];
    let pdu = Mms::parse(wire, &Limits::default()).expect("decode");
    let Mms::ConfirmedError { invoke_id, modifier_position, error } = pdu else {
        panic!("not a confirmed error");
    };
    assert_eq!((invoke_id, modifier_position), (7, Some(2)));
    assert_eq!(error.tag, Tag::context_constructed(2), "the service error is [2], not `whatever is next`");
    let re = pdu.to_vec().expect("encode");
    assert_eq!(re, wire, "and it re-encodes byte for byte");
    assert_eq!(Mms::parse(&re, &Limits::default()).expect("re-decode").to_vec().expect("re-encode"), re);

    let bad: &[u8] = &[130, 18, 128, 4, 2, 3, 42, 2, 129, 8, 0, 128, 4, 0, 0, 239, 255, 255, 129, 0, 0];
    assert!(Mms::parse(bad, &Limits::default()).is_err(), "a 64-bit modifier position is not one");

    let e = ServiceError::parse(&error).expect("service error");
    assert_eq!((e.class, e.code, e.additional), (7, 10, None), "access error, object-non-existent");
}

#[test]
fn the_reference_initiate_request_round_trips() {
    let wire: &[u8] = &[
        0xA8, 0x25, // initiate-RequestPDU
        0x80, 0x02, 0x7D, 0x00, // localDetailCalling 32000
        0x81, 0x01, 0x14, // proposedMaxServOutstandingCalling 20
        0x82, 0x01, 0x14, // proposedMaxServOutstandingCalled 20
        0x83, 0x01, 0x04, // proposedDataStructureNestingLevel 4
        0xA4, 0x16, // mmsInitRequestDetail
        0x80, 0x01, 0x01, // proposedVersionNumber 1
        0x81, 0x03, 0x05, 0xFB, 0x00, // proposedParameterCBB
        0x82, 0x0C, 0x03, 0x6E, 0x1D, 0x00, 0x00, 0x00, 0x00, 0x00, 0x64, 0x00, 0x01, 0x98, // servicesSupportedCalling
    ];
    let Mms::InitiateRequest(i) = round_trip(wire) else { panic!("not an initiate request") };
    assert_eq!(i.local_detail, Some(32_000));
    assert_eq!((i.max_serv_outstanding_calling, i.max_serv_outstanding_called), (20, 20));
    assert_eq!(i.data_structure_nesting_level, Some(4));
    assert_eq!(i.version, 1);
    assert_eq!(i.parameter_cbb, (5, &[0xFB, 0x00][..]));
}

#[test]
fn the_reference_identify_request_round_trips() {
    let wire: &[u8] = &[0xA0, 0x06, 0x02, 0x02, 0x11, 0x4F, 0x82, 0x00];
    let pdu = round_trip(wire);
    assert_eq!(pdu.invoke_id(), Some(4431));
    assert!(matches!(pdu, Mms::ConfirmedRequest { service: ConfirmedRequest::Identify, .. }));
}

#[test]
fn a_file_directory_response_wraps_its_entries_in_a_sequence() {
    let response = ConfirmedResponse::FileDirectory {
        entries: vec![DirectoryEntry {
            name: FileName::from_encoded(&[0x19, 0x01, b'a']),
            attributes: FileAttributes { size: 7, last_modified: None },
        }],
        more_follows: false,
    };
    let mut e = Encoder::new();
    Mms::ConfirmedResponse { invoke_id: 1, service: response }.write(&mut e).expect("encode");
    let bytes = e.into_vec();
    let mut c = Cursor::new(&bytes).next_required().expect("pdu").children();
    c.next_required().expect("invokeID");
    let service = c.next_tag(Tag::context_constructed(SERVICE_FILE_DIRECTORY)).expect("fileDirectory");
    let list = service.children().next_tag(Tag::context_constructed(0)).expect("listOfDirectoryEntry");
    let inner = list.children().next_required().expect("the SEQUENCE OF");
    assert_eq!(inner.tag, Tag::universal(UNIVERSAL_SEQUENCE, true), "`listOfDirectoryEntry [0]` is not implicitly tagged");
    let entry = inner.children().next_required().expect("one entry");
    assert_eq!(entry.tag, Tag::universal(UNIVERSAL_SEQUENCE, true));
    assert_eq!(entry.children().next_required().expect("filename").tag, Tag::context_constructed(0));

    let back = Mms::parse(&bytes, &Limits::default()).expect("decode");
    let Mms::ConfirmedResponse { service: ConfirmedResponse::FileDirectory { entries, .. }, .. } = &back else { panic!("not a file directory") };
    assert_eq!(entries.len(), 1);
    assert_eq!(entries[0].name.display(), "a");
    assert_eq!(entries[0].attributes.size, 7);
    assert_eq!(back.to_vec().expect("re-encode"), bytes);

    let sequence = Tag::universal(UNIVERSAL_SEQUENCE, true);
    let mut name = Encoder::new();
    name.primitive(tag_graphic_string(), b"a");
    let mut size = Encoder::new();
    size.unsigned(Tag::context(0), 7);
    let mut entry = Encoder::new();
    entry.constructed(Tag::context_constructed(0), &name);
    entry.constructed(Tag::context_constructed(1), &size);
    let mut list = Encoder::new();
    list.constructed(sequence, &entry);
    let mut service = Encoder::new();
    service.constructed(Tag::context_constructed(0), &list);
    let mut contents = Encoder::new();
    contents.integer(Tag::universal(UNIVERSAL_INTEGER, false), 1);
    contents.constructed(Tag::context_constructed(SERVICE_FILE_DIRECTORY), &service);
    let mut implicit = Encoder::new();
    implicit.constructed(Tag::context_constructed(2), &contents);
    let mut implicit = implicit.into_vec();
    implicit[0] = 0xA1; // a confirmed *response*
    let back = Mms::parse(&implicit, &Limits::default()).expect("decode the implicit spelling");
    let Mms::ConfirmedResponse { service: ConfirmedResponse::FileDirectory { entries, .. }, .. } = back else { panic!("not a file directory") };
    assert_eq!(entries.len(), 1);
    assert_eq!(entries[0].name.display(), "a");
}

#[test]
fn the_reference_read_request_names_a_domain_variable() {
    let wire: &[u8] = &[
        0xA0, 0x30, // confirmed-RequestPDU
        0x02, 0x02, 0x11, 0x50, // invokeID 4432
        0xA4, 0x2A, // read
        0xA1, 0x28, // variableAccessSpecification
        0xA0, 0x26, // listOfVariable
        0x30, 0x24, // SEQUENCE
        0xA0, 0x22, // variableSpecification: name
        0xA1, 0x20, // domain-specific
        0x1A, 0x08, b'K', b'I', b'R', b'K', b'L', b'A', b'N', b'D', //
        0x1A, 0x14, b'B', b'i', b'l', b'a', b't', b'e', b'r', b'a', b'l', b'_', b'T', b'a', b'b', b'l', b'e', b'_', b'I', b'D', b'0', b'1',
    ];
    let pdu = round_trip(wire);
    let Mms::ConfirmedRequest { invoke_id, service: ConfirmedRequest::Read { access, specification_with_result } } = pdu else { panic!("not a read") };
    assert_eq!(invoke_id, 4432);
    assert!(!specification_with_result);
    let VariableAccess::ListOfVariable(vars) = access else { panic!("not a list") };
    assert_eq!(vars.len(), 1);
    assert_eq!(vars[0], VariableSpecification::Name(ObjectName::DomainSpecific { domain: "KIRKLAND", item: "Bilateral_Table_ID01" }));
}

#[test]
fn an_information_report_carries_a_data_set_and_its_values() {
    let wire: &[u8] = &[
        0xA3, 0x2B, // unconfirmed-PDU
        0xA0, 0x29, // informationReport
        0xA1, 0x18, // variableAccessSpecification: variableListName
        0xA1, 0x16, // domain-specific
        0x1A, 0x08, b'K', b'I', b'R', b'K', b'L', b'A', b'N', b'D', //
        0x1A, 0x0A, b'E', b'M', b'S', b'_', b'A', b'N', b'A', b'L', b'O', b'G', //
        0xA0, 0x0D, // listOfAccessResult
        0x86, 0x01, 0x01, // unsigned 1
        0x87, 0x05, 0x08, 0x3F, 0x80, 0x00, 0x00, // floating point 1.0
        0x80, 0x01, 0x0A, // failure: object-non-existent
    ];
    let Mms::Unconfirmed(Unconfirmed::InformationReport { access, results }) = round_trip(wire) else { panic!("not a report") };
    assert_eq!(access, VariableAccess::VariableListName(ObjectName::DomainSpecific { domain: "KIRKLAND", item: "EMS_ANALOG" }));
    assert_eq!(results.len(), 3);
    assert_eq!(results[0].value().and_then(|d| d.as_u64()), Some(1));
    assert_eq!(results[1].value().and_then(|d| d.as_float()), Some(Float::Single(1.0f32.to_bits())));
    assert_eq!(results[2], AccessResult::Failure(10));
}

#[test]
fn a_read_response_and_a_write_round_trip() {
    let read: &[u8] = &[
        0xA1, 0x0D, // confirmed-ResponsePDU
        0x02, 0x01, 0x07, // invokeID 7
        0xA4, 0x08, // read
        0xA1, 0x06, // listOfAccessResult
        0x83, 0x01, 0xFF, // boolean true
        0x80, 0x01, 0x03, // failure: object-access-denied
    ];
    let Mms::ConfirmedResponse { service: ConfirmedResponse::Read { results, access }, .. } = round_trip(read) else { panic!() };
    assert!(access.is_none());
    assert_eq!(results[0].value().and_then(|d| d.as_bool()), Some(true));
    assert_eq!(results[1], AccessResult::Failure(3));

    let write: &[u8] = &[
        0xA1, 0x0A, // confirmed-ResponsePDU
        0x02, 0x01, 0x08, //
        0xA5, 0x05, // write
        0x81, 0x00, // success
        0x80, 0x01, 0x02, // failure: temporarily-unavailable
    ];
    let Mms::ConfirmedResponse { service: ConfirmedResponse::Write(results), .. } = round_trip(write) else { panic!() };
    assert_eq!(results, [WriteResult::Success, WriteResult::Failure(2)]);
}

#[test]
fn get_name_list_round_trips_in_both_directions() {
    let request: &[u8] = &[
        0xA0, 0x14, //
        0x02, 0x01, 0x01, //
        0xA1, 0x0F, // getNameList
        0xA0, 0x03, 0x80, 0x01, 0x09, // objectClass: domain
        0xA1, 0x08, 0x81, 0x06, b'L', b'D', b'0', b'/', b'L', b'N', // scope: domain-specific
    ];
    let Mms::ConfirmedRequest { service: ConfirmedRequest::GetNameList { object_class, scope, continue_after }, .. } = round_trip(request) else {
        panic!()
    };
    assert_eq!(object_class, 9);
    assert_eq!(scope, ObjectScope::DomainSpecific("LD0/LN"));
    assert!(continue_after.is_none());

    let response: &[u8] = &[
        0xA1, 0x0E, //
        0x02, 0x01, 0x01, //
        0xA1, 0x09, // getNameList
        0xA0, 0x07, 0x1A, 0x02, b'L', b'D', 0x1A, 0x01, b'X', //
    ];
    let Mms::ConfirmedResponse { service: ConfirmedResponse::GetNameList { identifiers, more_follows }, .. } = round_trip(response) else { panic!() };
    assert_eq!(identifiers, ["LD", "X"]);
    assert!(more_follows, "the field is DEFAULT TRUE, so its absence means more");
}

#[test]
fn an_unmodelled_service_keeps_its_octets() {
    let wire: &[u8] = &[0xA0, 0x09, 0x02, 0x01, 0x05, 0xA7, 0x04, 0xA0, 0x02, 0x80, 0x00];
    let pdu = round_trip(wire);
    assert!(matches!(pdu, Mms::ConfirmedRequest { service: ConfirmedRequest::Other(_), .. }));
}

#[test]
fn conclude_and_errors_round_trip() {
    assert_eq!(round_trip(&[0x8B, 0x00]), Mms::ConcludeRequest);
    assert_eq!(round_trip(&[0x8C, 0x00]), Mms::ConcludeResponse);
    let err: &[u8] = &[0xA2, 0x08, 0x80, 0x01, 0x07, 0xA2, 0x03, 0x80, 0x01, 0x0B];
    let Mms::ConfirmedError { invoke_id, .. } = round_trip(err) else { panic!() };
    assert_eq!(invoke_id, 7);
}

#[test]
fn the_file_services_round_trip_through_the_high_tag_number_form() {
    let name = FileNameBuf::from_path("COMTRADE/rec1.cfg").unwrap();
    let open = Mms::ConfirmedRequest { invoke_id: 1, service: ConfirmedRequest::FileOpen { name: name.as_name(), position: 0 } };
    let bytes = open.to_vec().unwrap();
    assert!(bytes.windows(2).any(|w| w == [0xBF, 0x48]), "fileOpen is [72] in the high-tag-number form: {bytes:02X?}");
    assert_eq!(round_trip(&bytes), open);

    let read = Mms::ConfirmedRequest { invoke_id: 2, service: ConfirmedRequest::FileRead(9) };
    let bytes = read.to_vec().unwrap();
    assert!(bytes.ends_with(&[0x9F, 0x49, 0x01, 0x09]), "fileRead is a primitive Integer32: {bytes:02X?}");
    assert_eq!(round_trip(&bytes), read);

    for service in [
        ConfirmedRequest::FileClose(9),
        ConfirmedRequest::FileDelete(name.as_name()),
        ConfirmedRequest::FileDirectory { specification: Some(name.as_name()), continue_after: None },
        ConfirmedRequest::FileDirectory { specification: None, continue_after: None },
    ] {
        let pdu = Mms::ConfirmedRequest { invoke_id: 3, service };
        assert_eq!(round_trip(&pdu.to_vec().unwrap()), pdu);
    }

    let answer = Mms::ConfirmedResponse {
        invoke_id: 1,
        service: ConfirmedResponse::FileOpen { frsm_id: 9, attributes: FileAttributes { size: 4096, last_modified: Some("20240131T101500Z") } },
    };
    assert_eq!(round_trip(&answer.to_vec().unwrap()), answer);

    let last = Mms::ConfirmedResponse { invoke_id: 1, service: ConfirmedResponse::FileRead { data: &[1, 2, 3], more_follows: false } };
    let last_bytes = last.to_vec().unwrap();
    assert_eq!(round_trip(&last_bytes), last);
    let more = Mms::ConfirmedResponse { invoke_id: 1, service: ConfirmedResponse::FileRead { data: &[1, 2, 3], more_follows: true } };
    let more_bytes = more.to_vec().unwrap();
    assert!(more_bytes.len() < last_bytes.len(), "the default is not written");
    assert_eq!(round_trip(&more_bytes), more);

    let dir = Mms::ConfirmedResponse {
        invoke_id: 1,
        service: ConfirmedResponse::FileDirectory {
            entries: vec![DirectoryEntry { name: name.as_name(), attributes: FileAttributes { size: 12, last_modified: None } }],
            more_follows: true,
        },
    };
    let dir_bytes = dir.to_vec().unwrap();
    let back = round_trip(&dir_bytes);
    let Mms::ConfirmedResponse { service: ConfirmedResponse::FileDirectory { entries, more_follows }, .. } = back else { panic!() };
    assert!(more_follows);
    assert_eq!(entries[0].name.display(), "COMTRADE/rec1.cfg");
    assert_eq!(entries[0].attributes.size, 12);
}

#[test]
fn a_data_set_is_created_and_deleted_by_name() {
    let members = vec![
        VariableSpecification::Name(ObjectName::DomainSpecific { domain: "IED1LD0", item: "PTRC1$ST$Tr$general" }),
        VariableSpecification::Name(ObjectName::DomainSpecific { domain: "IED1LD0", item: "PTRC1$ST$Tr$q" }),
    ];
    let create = Mms::ConfirmedRequest {
        invoke_id: 1,
        service: ConfirmedRequest::DefineNamedVariableList {
            name: ObjectName::DomainSpecific { domain: "IED1LD0", item: "LLN0$dsTemp" },
            variables: members,
        },
    };
    assert_eq!(round_trip(&create.to_vec().unwrap()), create);
    assert_eq!(
        round_trip(&Mms::ConfirmedResponse { invoke_id: 1, service: ConfirmedResponse::DefineNamedVariableList }.to_vec().unwrap()),
        Mms::ConfirmedResponse { invoke_id: 1, service: ConfirmedResponse::DefineNamedVariableList }
    );

    let delete = Mms::ConfirmedRequest {
        invoke_id: 2,
        service: ConfirmedRequest::DeleteNamedVariableList {
            scope: delete_scope::SPECIFIC,
            names: vec![ObjectName::DomainSpecific { domain: "IED1LD0", item: "LLN0$dsTemp" }],
            domain: None,
        },
    };
    assert_eq!(round_trip(&delete.to_vec().unwrap()), delete);
    let by_domain = Mms::ConfirmedRequest {
        invoke_id: 3,
        service: ConfirmedRequest::DeleteNamedVariableList { scope: delete_scope::DOMAIN, names: Vec::new(), domain: Some("IED1LD0") },
    };
    assert_eq!(round_trip(&by_domain.to_vec().unwrap()), by_domain);

    let answer = Mms::ConfirmedResponse { invoke_id: 2, service: ConfirmedResponse::DeleteNamedVariableList { matched: 1, deleted: 0 } };
    assert_eq!(round_trip(&answer.to_vec().unwrap()), answer);
}

#[test]
fn a_type_is_asked_for_by_name_and_comes_back_as_a_shape() {
    let ask = Mms::ConfirmedRequest {
        invoke_id: 1,
        service: ConfirmedRequest::GetVariableAccessAttributes(ObjectName::DomainSpecific { domain: "IED1LD0", item: "MMXU1$MX$TotW$mag$f" }),
    };
    let bytes = ask.to_vec().unwrap();
    assert!(bytes.windows(4).any(|w| w[0] == 0xA6 && w[2] == 0xA0), "[6] is explicit and wraps the `name [0]` choice: {bytes:02X?}");
    assert_eq!(round_trip(&bytes), ask);

    let answer = Mms::ConfirmedResponse {
        invoke_id: 1,
        service: ConfirmedResponse::GetVariableAccessAttributes {
            deletable: false,
            type_spec: TypeSpec::FloatingPoint { format_width: 32, exponent_width: 8 },
        },
    };
    assert_eq!(round_trip(&answer.to_vec().unwrap()), answer);
}

#[test]
fn a_log_is_read_by_time_and_resumed_after_an_entry() {

    let log = ObjectName::DomainSpecific { domain: "IED1LD0", item: "LLN0$GeneralLog" };
    let from = TimeOfDay::from_unix_millis(1_700_000_000_000);
    let by_time = Mms::ConfirmedRequest { invoke_id: 1, service: ConfirmedRequest::ReadJournal(ReadJournal::by_time(log, from, None)) };
    let bytes = by_time.to_vec().unwrap();
    assert!(bytes.windows(2).any(|w| w == [0xBF, 0x41]), "readJournal is [65]: {bytes:02X?}");
    assert_eq!(round_trip(&bytes), by_time);

    let mut bounded = ReadJournal::by_time(log, from, Some(TimeOfDay::from_unix_millis(1_700_000_060_000)));
    bounded.stop = Some(RangeStop::Count(100));
    bounded.variables = vec!["IED1LD0/LLN0$ST$Mod$stVal"];
    let pdu = Mms::ConfirmedRequest { invoke_id: 2, service: ConfirmedRequest::ReadJournal(bounded) };
    assert_eq!(round_trip(&pdu.to_vec().unwrap()), pdu);

    let after = Mms::ConfirmedRequest {
        invoke_id: 3,
        service: ConfirmedRequest::ReadJournal(ReadJournal::after_entry(log, AfterEntry { time: from, entry_id: &[1, 2, 3, 4, 5, 6, 7, 8] })),
    };
    assert_eq!(round_trip(&after.to_vec().unwrap()), after);

    let value_bytes = Value::encode_all(&[Value::Boolean(true)]).unwrap();
    let value = Cursor::new(&value_bytes).next_required().unwrap();
    let answer = Mms::ConfirmedResponse {
        invoke_id: 1,
        service: ConfirmedResponse::ReadJournal {
            entries: vec![
                JournalEntry::new(&[0, 0, 0, 0, 0, 0, 0, 1], from, vec![JournalVariable { tag: "IED1LD0/LLN0$ST$Mod$stVal", value }]),
                JournalEntry::annotated(&[0, 0, 0, 0, 0, 0, 0, 2], from, "power up"),
            ],
            more_follows: false,
        },
    };
    let answer_bytes = answer.to_vec().unwrap();
    let back = round_trip(&answer_bytes);
    let Mms::ConfirmedResponse { service: ConfirmedResponse::ReadJournal { entries, .. }, .. } = back else { panic!() };
    assert_eq!(entries[0].variables[0].tag, "IED1LD0/LLN0$ST$Mod$stVal");
    assert_eq!(entries[0].variables[0].value().and_then(|v| Typed::as_bool(&v)), Some(true));
    assert_eq!(entries[1].annotation, Some("power up"));
    assert_eq!(entries[1].occurred, from);
}

#[test]
fn mod_truncation_is_an_error_not_a_panic() {
    let wire: &[u8] = &[
        0xA3, 0x2B, 0xA0, 0x29, 0xA1, 0x18, 0xA1, 0x16, 0x1A, 0x08, b'K', b'I', b'R', b'K', b'L', b'A', b'N', b'D', 0x1A, 0x0A, b'E', b'M', b'S', b'_',
        b'A', b'N', b'A', b'L', b'O', b'G', 0xA0, 0x0D, 0x86, 0x01, 0x01, 0x87, 0x05, 0x08, 0x3F, 0x80, 0x00, 0x00, 0x80, 0x01, 0x0A,
    ];
    for cut in 0..wire.len() {
        let _ = Mms::parse(&wire[..cut], &Limits::default());
    }
    assert!(Mms::parse(&[], &Limits::default()).is_err());
    assert!(Mms::parse(&[0x30, 0x00], &Limits::default()).is_err(), "a SEQUENCE is not an MMS PDU");
}
