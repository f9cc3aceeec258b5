//! The octets of the MMS PDUs, field by field.

use vstd::prelude::*;
use crate::ber::{octets_of, sint_octets, tlv, Tlv, TlvModel};
use crate::ber::list::{list_bytes, list_from, Element};
use crate::ber::wire::{element, group_wire, long_element};
use crate::common::{Error, Limits, SelectorModel};
use crate::proto::mms::alternate::{path_bytes, steps_bytes};
use crate::proto::mms::file::{
    attributes_contents, components_bytes, DirectoryEntry, DirectoryEntryModel, FileAttributesModel,
};
use crate::proto::mms::initiate::{initiate_contents, InitiateModel};
use crate::proto::mms::journal::{
    time_octets, JournalEntry, JournalEntryModel, JournalVariable, JournalVariableModel,
    RangeStartModel, RangeStop,
};
use crate::proto::mms::names::{
    name_bytes, scope_bytes, ObjectName, ObjectNameModel, ObjectScopeModel,
};
use crate::proto::mms::pdu::{
    lemma_mms_round_trip, mms_of, pdu_bytes, pdu_fault, pdu_fits, same_pdu, MmsModel,
    UnconfirmedModel,
};
use crate::proto::mms::read_journal::{read_journal_contents, ReadJournalModel};
use crate::proto::mms::reject::{
    invoke_id_in, reason_from, reason_parts, reject_contents, Reject, RejectReason,
};
use crate::proto::mms::request::{request_bytes, ConfirmedRequestModel};
use crate::proto::mms::response::{response_bytes, ConfirmedResponseModel};
use crate::proto::mms::service_error::service_error_contents;
use crate::proto::mms::typespec::{components_from, type_bytes, ComponentModel, TypeSpecModel};
use crate::proto::mms::variables::{
    access_bytes, AccessResult, AccessResultModel, VariableAccessModel, VariableSpecification,
    VariableSpecificationModel, WriteResult,
};

verus! {

/// A flag: one octet, all ones or all zeros.
pub open spec fn flag(b: bool) -> Seq<u8> {
    if b {
        seq![0xFFu8]
    } else {
        seq![0u8]
    }
}

/// A number in its fewest octets.
pub open spec fn number(v: int) -> Seq<u8> {
    sint_octets(v)
}

/// Text in its octets, where there is some.
pub open spec fn opt_text(lead: u8, s: Option<Seq<char>>) -> Seq<u8> {
    match s {
        Some(s) => element(lead, octets_of(s)),
        None => Seq::empty(),
    }
}

/// A number, where there is one.
pub open spec fn opt_number(lead: u8, v: Option<i64>) -> Seq<u8> {
    match v {
        Some(v) => element(lead, number(v as int)),
        None => Seq::empty(),
    }
}

/// An element that was kept.
pub open spec fn kept(t: TlvModel) -> Seq<u8> {
    tlv(t.tag, t.value)
}

// ---- lists -----------------------------------------------------------------------------

/// The elements of a list stand back to back, in their order, and nothing stands for none.
pub proof fn lemma_list_order<'a, T: Element<'a>>(first: T::V, rest: Seq<T::V>)
    ensures
        list_bytes::<T>(Seq::empty()) == Seq::<u8>::empty(),
        list_bytes::<T>(seq![first] + rest) == tlv(T::tag_of(first), T::contents_of(first))
            + list_bytes::<T>(rest),
{
    lemma_list_shifted::<T>(first, rest, 0);
}

proof fn lemma_list_shifted<'a, T: Element<'a>>(first: T::V, rest: Seq<T::V>, i: nat)
    requires
        i <= rest.len(),
    ensures
        list_from::<T>(seq![first] + rest, i + 1) == list_from::<T>(rest, i),
    decreases rest.len() - i,
{
    if i < rest.len() {
        lemma_list_shifted::<T>(first, rest, i + 1);
    }
}

// ---- names and variables ---------------------------------------------------------------

/// A name: 80 one of the whole device, A1 the domain and then the item, 82 one of the association.
/// A scope: 80 the whole device, 81 a domain, 82 the association.
pub proof fn lemma_name_layout(s: Seq<char>, domain: Seq<char>, item: Seq<char>)
    ensures
        name_bytes(ObjectNameModel::VmdSpecific(s)) == element(0x80, octets_of(s)),
        name_bytes(ObjectNameModel::DomainSpecific { domain, item }) == element(
            0xA1,
            element(0x1A, octets_of(domain)) + element(0x1A, octets_of(item)),
        ),
        name_bytes(ObjectNameModel::AaSpecific(s)) == element(0x82, octets_of(s)),
        scope_bytes(ObjectScopeModel::VmdSpecific) == element(0x80, Seq::empty()),
        scope_bytes(ObjectScopeModel::DomainSpecific(s)) == element(0x81, octets_of(s)),
        scope_bytes(ObjectScopeModel::AaSpecific) == element(0x82, Seq::empty()),
{
    broadcast use group_wire;

}

/// A variable of a list is a sequence of its name under A0 and, where a part of it is meant, the
/// path under A5. A list of variables is under A0, and the name of one under A1.
pub proof fn lemma_variable_layout(
    name: ObjectNameModel,
    access: Seq<SelectorModel>,
    variables: Seq<VariableSpecificationModel>,
    kept_one: TlvModel,
)
    requires
        access.len() >= 1,
    ensures
        ({
            let item = |m: VariableSpecificationModel|
                tlv(
                    VariableSpecification::<'static>::tag_of(m),
                    VariableSpecification::<'static>::contents_of(m),
                );
            &&& item(VariableSpecificationModel::Name(name)) == element(
                0x30,
                element(0xA0, name_bytes(name)),
            )
            &&& item(VariableSpecificationModel::Element { name, access }) == element(
                0x30,
                element(0xA0, name_bytes(name)) + element(0xA5, steps_bytes(access)),
            )
            &&& item(VariableSpecificationModel::Other(kept_one)) == element(0x30, kept(kept_one))
        }),
        access_bytes(VariableAccessModel::ListOfVariable(variables)) == element(
            0xA0,
            list_bytes::<VariableSpecification<'static>>(variables),
        ),
        access_bytes(VariableAccessModel::VariableListName(name)) == element(
            0xA1,
            name_bytes(name),
        ),
{
    broadcast use group_wire;

}

/// One result of a read is either a failure under 80 with its code, or the value itself; one of a
/// write is a failure under 80, or an empty 81.
pub proof fn lemma_result_layout(code: i64, value: TlvModel)
    ensures
        tlv(
            AccessResult::<'static>::tag_of(AccessResultModel::Failure(code)),
            AccessResult::<'static>::contents_of(AccessResultModel::Failure(code)),
        ) == element(0x80, number(code as int)),
        tlv(
            AccessResult::<'static>::tag_of(AccessResultModel::Success(value)),
            AccessResult::<'static>::contents_of(AccessResultModel::Success(value)),
        ) == kept(value),
        tlv(
            WriteResult::tag_of(WriteResult::Failure(code)),
            WriteResult::contents_of(WriteResult::Failure(code)),
        ) == element(0x80, number(code as int)),
        tlv(
            WriteResult::tag_of(WriteResult::Success),
            WriteResult::contents_of(WriteResult::Success),
        ) == element(0x81, Seq::empty()),
{
    broadcast use group_wire;

}

/// A path of one step: 81 a component, 82 an index, A3 a range of its first index and its count, 84
/// all elements. Before a further step the number is one less, both are in an A0, and what follows is
/// a sequence.
pub proof fn lemma_path_layout(
    name: Seq<char>,
    index: u32,
    low: u32,
    count: u32,
    more: Seq<SelectorModel>,
)
    requires
        more.len() >= 1,
    ensures
        steps_bytes(seq![SelectorModel::Component(name)]) == element(0x81, octets_of(name)),
        steps_bytes(seq![SelectorModel::Index(index)]) == element(0x82, number(index as int)),
        steps_bytes(seq![SelectorModel::IndexRange { low, count }]) == element(
            0xA3,
            element(0x80, number(low as int)) + element(0x81, number(count as int)),
        ),
        steps_bytes(seq![SelectorModel::AllElements]) == element(0x84, Seq::empty()),
        steps_bytes(seq![SelectorModel::Component(name)] + more) == element(
            0xA0,
            element(0x80, octets_of(name)) + element(0x30, steps_bytes(more)),
        ),
        steps_bytes(seq![SelectorModel::Index(index)] + more) == element(
            0xA0,
            element(0x81, number(index as int)) + element(0x30, steps_bytes(more)),
        ),
        steps_bytes(seq![SelectorModel::IndexRange { low, count }] + more) == element(
            0xA0,
            element(
                0xA2,
                element(0x80, number(low as int)) + element(0x81, number(count as int)),
            ) + element(0x30, steps_bytes(more)),
        ),
        steps_bytes(seq![SelectorModel::AllElements] + more) == element(
            0xA0,
            element(0x83, Seq::empty()) + element(0x30, steps_bytes(more)),
        ),
        path_bytes(more) == element(0xA5, steps_bytes(more)),
        path_bytes(Seq::empty()) == Seq::<u8>::empty(),
{
    broadcast use group_wire;

    assert((seq![SelectorModel::Component(name)] + more).skip(1) =~= more);
    assert((seq![SelectorModel::Index(index)] + more).skip(1) =~= more);
    assert((seq![SelectorModel::IndexRange { low, count }] + more).skip(1) =~= more);
    assert((seq![SelectorModel::AllElements] + more).skip(1) =~= more);
}

// ---- requests --------------------------------------------------------------------------

/// The octets of each request that browses, reads or writes.
pub proof fn lemma_request_layout(
    b: bool,
    class: i64,
    scope: ObjectScopeModel,
    after: Option<Seq<char>>,
    access: VariableAccessModel,
    values: Seq<TlvModel>,
    name: ObjectNameModel,
    variables: Seq<VariableSpecificationModel>,
)
    ensures
        request_bytes(ConfirmedRequestModel::Status { extended_derivation: b }) == element(
            0x80,
            flag(b),
        ),
        request_bytes(
            ConfirmedRequestModel::GetNameList {
                object_class: class,
                scope,
                continue_after: after,
            },
        ) == element(
            0xA1,
            element(0xA0, element(0x80, number(class as int))) + (element(0xA1, scope_bytes(scope))
                + opt_text(0x82, after)),
        ),
        request_bytes(ConfirmedRequestModel::Identify) == element(0x82, Seq::empty()),
        request_bytes(
            ConfirmedRequestModel::Read { specification_with_result: true, access },
        ) == element(0xA4, element(0x80, flag(true)) + element(0xA1, access_bytes(access))),
        request_bytes(
            ConfirmedRequestModel::Read { specification_with_result: false, access },
        ) == element(0xA4, element(0xA1, access_bytes(access))),
        request_bytes(ConfirmedRequestModel::Write { access, values }) == element(
            0xA5,
            access_bytes(access) + element(0xA0, list_bytes::<Tlv<'static>>(values)),
        ),
        request_bytes(ConfirmedRequestModel::GetVariableAccessAttributes(name)) == element(
            0xA6,
            element(0xA0, name_bytes(name)),
        ),
        request_bytes(
            ConfirmedRequestModel::DefineNamedVariableList { name, variables },
        ) == element(
            0xAB,
            name_bytes(name) + element(
                0xA0,
                list_bytes::<VariableSpecification<'static>>(variables),
            ),
        ),
        request_bytes(ConfirmedRequestModel::GetNamedVariableListAttributes(name)) == element(
            0xAC,
            name_bytes(name),
        ),
        request_bytes(
            ConfirmedRequestModel::GetCapabilityList { continue_after: after },
        ) == long_element(0xBF, 71, opt_text(0x1A, after)),
{
    broadcast use group_wire;

    let a = element(0xA1, access_bytes(access));
    assert(Seq::<u8>::empty() + a =~= a);
}

/// The octets of each request that deletes a list, or is about files.
pub proof fn lemma_file_request_layout(
    scope: i64,
    names: Seq<ObjectNameModel>,
    domain: Option<Seq<char>>,
    name: Seq<u8>,
    position: u32,
    id: i32,
    journal: ReadJournalModel,
    other: Seq<u8>,
)
    ensures
        request_bytes(
            ConfirmedRequestModel::DeleteNamedVariableList { scope, names, domain },
        ) == element(
            0xAD,
            (if scope == 0 {
                Seq::empty()
            } else {
                element(0x80, number(scope as int))
            }) + ((if names.len() == 0 {
                Seq::empty()
            } else {
                element(0xA1, list_bytes::<ObjectName<'static>>(names))
            }) + opt_text(0x82, domain)),
        ),
        request_bytes(ConfirmedRequestModel::ReadJournal(journal)) == long_element(
            0xBF,
            65,
            read_journal_contents(journal),
        ),
        request_bytes(ConfirmedRequestModel::FileOpen { name, position }) == long_element(
            0xBF,
            72,
            element(0xA0, name) + element(0x81, number(position as int)),
        ),
        request_bytes(ConfirmedRequestModel::FileRead(id)) == long_element(
            0x9F,
            73,
            number(id as int),
        ),
        request_bytes(ConfirmedRequestModel::FileClose(id)) == long_element(
            0x9F,
            74,
            number(id as int),
        ),
        request_bytes(ConfirmedRequestModel::FileDelete(name)) == long_element(0xBF, 76, name),
        request_bytes(
            ConfirmedRequestModel::FileDirectory {
                specification: Some(name),
                continue_after: Some(other),
            },
        ) == long_element(0xBF, 77, element(0xA0, name) + element(0xA1, other)),
        request_bytes(
            ConfirmedRequestModel::FileDirectory {
                specification: None,
                continue_after: Some(other),
            },
        ) == long_element(0xBF, 77, element(0xA1, other)),
        request_bytes(
            ConfirmedRequestModel::FileDirectory { specification: Some(name), continue_after: None },
        ) == long_element(0xBF, 77, element(0xA0, name)),
{
    broadcast use group_wire;

    let a = element(0xA0, name);
    let b = element(0xA1, other);
    assert(Seq::<u8>::empty() + b =~= b);
    assert(a + Seq::<u8>::empty() =~= a);
}

/// A read of a log: A0 its name, A1 where to start, A2 where to stop, A4 which variables, and A5 the
/// entry to resume after, as its time and its identifier. A start is a time under 80 or an entry
/// under 81; a stop is a time under 80 or a count under 81.
pub proof fn lemma_read_journal_layout(m: ReadJournalModel)
    ensures
        read_journal_contents(m) == (match m.name {
            Some(n) => element(0xA0, name_bytes(n)),
            None => Seq::empty(),
        }) + ((match m.start {
            Some(RangeStartModel::Time(t)) => element(0xA1, element(0x80, time_octets(t))),
            Some(RangeStartModel::Entry(id)) => element(0xA1, element(0x81, id)),
            None => Seq::empty(),
        }) + ((match m.stop {
            Some(RangeStop::Time(t)) => element(0xA2, element(0x80, time_octets(t))),
            Some(RangeStop::Count(n)) => element(0xA2, element(0x81, number(n as int))),
            None => Seq::empty(),
        }) + ((if m.variables.len() > 0 {
            element(0xA4, list_bytes::<&'static str>(m.variables))
        } else {
            Seq::empty()
        }) + (match m.after {
            Some(a) => element(
                0xA5,
                element(0x80, time_octets(a.time)) + element(0x81, a.entry_id),
            ),
            None => Seq::empty(),
        })))),
{
    broadcast use group_wire;

}

// ---- responses -------------------------------------------------------------------------

/// The octets of each response to a request that browses, reads or writes. `moreFollows` is left out
/// where it is true.
pub proof fn lemma_response_layout(
    logical: i64,
    physical: i64,
    unused: u8,
    bits: Seq<u8>,
    names: Seq<Seq<char>>,
    vendor: Seq<char>,
    model: Seq<char>,
    revision: Seq<char>,
    results: Seq<AccessResultModel>,
    written: Seq<WriteResult>,
)
    ensures
        response_bytes(
            ConfirmedResponseModel::Status { logical, physical, local_detail: Some((unused, bits)) },
        ) == element(
            0xA0,
            element(0x80, number(logical as int)) + (element(0x81, number(physical as int))
                + element(0x82, seq![unused] + bits)),
        ),
        response_bytes(
            ConfirmedResponseModel::Status { logical, physical, local_detail: None },
        ) == element(
            0xA0,
            element(0x80, number(logical as int)) + element(0x81, number(physical as int)),
        ),
        response_bytes(
            ConfirmedResponseModel::GetNameList { identifiers: names, more_follows: true },
        ) == element(0xA1, element(0xA0, list_bytes::<&'static str>(names))),
        response_bytes(
            ConfirmedResponseModel::GetNameList { identifiers: names, more_follows: false },
        ) == element(
            0xA1,
            element(0xA0, list_bytes::<&'static str>(names)) + element(0x81, flag(false)),
        ),
        response_bytes(ConfirmedResponseModel::Identify { vendor, model, revision }) == element(
            0xA2,
            element(0x80, octets_of(vendor)) + (element(0x81, octets_of(model)) + element(
                0x82,
                octets_of(revision),
            )),
        ),
        response_bytes(ConfirmedResponseModel::Read { access: None, results }) == element(
            0xA4,
            element(0xA1, list_bytes::<AccessResult<'static>>(results)),
        ),
        response_bytes(ConfirmedResponseModel::Write(written)) == element(
            0xA5,
            list_bytes::<WriteResult>(written),
        ),
        response_bytes(
            ConfirmedResponseModel::GetCapabilityList { capabilities: names, more_follows: true },
        ) == long_element(0xBF, 71, element(0xA0, list_bytes::<&'static str>(names))),
        response_bytes(
            ConfirmedResponseModel::GetCapabilityList { capabilities: names, more_follows: false },
        ) == long_element(
            0xBF,
            71,
            element(0xA0, list_bytes::<&'static str>(names)) + element(0x81, flag(false)),
        ),
{
    broadcast use group_wire;

    let a = element(0xA1, list_bytes::<AccessResult<'static>>(results));
    assert(Seq::<u8>::empty() + a =~= a);
    let b = element(0xA0, list_bytes::<&'static str>(names));
    assert(b + Seq::<u8>::empty() =~= b);
    let p = element(0x81, number(physical as int));
    assert(p + Seq::<u8>::empty() =~= p);
}

/// The octets of each response that is about a list, a type, a log or a file. Of these only a file
/// read leaves `moreFollows` out where it is true; the others leave it out where it is false.
pub proof fn lemma_file_response_layout(
    access: VariableAccessModel,
    results: Seq<AccessResultModel>,
    deletable: bool,
    variables: Seq<VariableSpecificationModel>,
    type_spec: TypeSpecModel,
    matched: u32,
    deleted: u32,
)
    ensures
        response_bytes(ConfirmedResponseModel::Read { access: Some(access), results }) == element(
            0xA4,
            element(0xA0, access_bytes(access)) + element(
                0xA1,
                list_bytes::<AccessResult<'static>>(results),
            ),
        ),
        response_bytes(
            ConfirmedResponseModel::GetVariableAccessAttributes { deletable, type_spec },
        ) == element(
            0xA6,
            element(0x80, flag(deletable)) + element(0xA2, type_bytes(type_spec)),
        ),
        response_bytes(ConfirmedResponseModel::DefineNamedVariableList) == element(
            0x8B,
            Seq::empty(),
        ),
        response_bytes(
            ConfirmedResponseModel::GetNamedVariableListAttributes { deletable, variables },
        ) == element(
            0xAC,
            element(0x80, flag(deletable)) + element(
                0xA1,
                list_bytes::<VariableSpecification<'static>>(variables),
            ),
        ),
        response_bytes(
            ConfirmedResponseModel::DeleteNamedVariableList { matched, deleted },
        ) == element(
            0xAD,
            element(0x80, number(matched as int)) + element(0x81, number(deleted as int)),
        ),
        response_bytes(ConfirmedResponseModel::FileClose) == long_element(0x9F, 74, Seq::empty()),
        response_bytes(ConfirmedResponseModel::FileDelete) == long_element(0x9F, 76, Seq::empty()),
{
    broadcast use group_wire;

}

/// The octets of the responses that carry a log or a file.
pub proof fn lemma_transfer_layout(
    entries: Seq<JournalEntryModel>,
    id: i32,
    attributes: FileAttributesModel,
    data: Seq<u8>,
    files: Seq<DirectoryEntryModel>,
    more: bool,
)
    ensures
        response_bytes(
            ConfirmedResponseModel::ReadJournal { entries, more_follows: more },
        ) == long_element(
            0xBF,
            65,
            element(0xA0, list_bytes::<JournalEntry<'static>>(entries)) + (if more {
                element(0x81, flag(true))
            } else {
                Seq::empty()
            }),
        ),
        response_bytes(
            ConfirmedResponseModel::FileOpen { frsm_id: id, attributes },
        ) == long_element(
            0xBF,
            72,
            element(0x80, number(id as int)) + element(0xA1, attributes_contents(attributes)),
        ),
        response_bytes(
            ConfirmedResponseModel::FileRead { data, more_follows: more },
        ) == long_element(
            0xBF,
            73,
            element(0x80, data) + (if more {
                Seq::empty()
            } else {
                element(0x81, flag(false))
            }),
        ),
        response_bytes(
            ConfirmedResponseModel::FileDirectory { entries: files, more_follows: more },
        ) == long_element(
            0xBF,
            77,
            element(0xA0, element(0x30, list_bytes::<DirectoryEntry<'static>>(files))) + (if more {
                element(0x81, flag(true))
            } else {
                Seq::empty()
            }),
        ),
{
    broadcast use group_wire;

}

/// What stands in those lists. A file's attributes are its size under 80 and when it was last
/// modified under 81; a directory entry is its name under A0 and its attributes under A1; an entry of a
/// log is its identifier under 80, its originator, and under A2 when it occurred and what it holds.
pub proof fn lemma_entry_layout(
    a: FileAttributesModel,
    d: DirectoryEntryModel,
    v: JournalVariableModel,
    e: JournalEntryModel,
    text: Seq<char>,
)
    ensures
        attributes_contents(a) == element(0x80, number(a.size as int)) + opt_text(
            0x81,
            a.last_modified,
        ),
        tlv(
            DirectoryEntry::<'static>::tag_of(d),
            DirectoryEntry::<'static>::contents_of(d),
        ) == element(
            0x30,
            element(0xA0, d.name) + element(0xA1, attributes_contents(d.attributes)),
        ),
        tlv(
            JournalVariable::<'static>::tag_of(v),
            JournalVariable::<'static>::contents_of(v),
        ) == element(
            0x30,
            element(0x80, octets_of(v.tag)) + element(0xA1, kept(v.value)),
        ),
        tlv(
            JournalEntry::<'static>::tag_of(e),
            JournalEntry::<'static>::contents_of(e),
        ) == element(
            0x30,
            element(0x80, e.entry_id) + ((match e.origin {
                Some(o) => kept(o),
                None => Seq::empty(),
            }) + element(
                0xA2,
                element(0x80, time_octets(e.occurred)) + (match e.annotation {
                    Some(a) => element(0x83, octets_of(a)),
                    None => element(
                        0xA2,
                        element(0xA1, list_bytes::<JournalVariable<'static>>(e.variables)),
                    ),
                }),
            )),
        ),
        tlv(<&'static str>::tag_of(text), <&'static str>::contents_of(text)) == element(
            0x1A,
            octets_of(text),
        ),
        components_bytes(seq![text], 0) == element(0x19, octets_of(text)),
{
    broadcast use group_wire;

    reveal_with_fuel(components_bytes, 2);
    let p = element(0x19, octets_of(text));
    assert(p + Seq::<u8>::empty() =~= p);
}

/// A type, by its choice: A0 a named one, A1 an array, A2 a structure, 83 a boolean, 84 a bit string,
/// 85 an integer, 86 an unsigned one, A7 a floating-point number, 89 octets, 8A text, 8B a
/// generalized time, 8C a binary time, 8D decimal digits, 90 text in UTF-8 and 91 a time.
pub proof fn lemma_type_layout(
    item: Seq<char>,
    domain: Seq<char>,
    packed: bool,
    elements: u32,
    inner: TypeSpecModel,
    n: i32,
    w: u8,
    x: u8,
    d: bool,
)
    ensures
        type_bytes(TypeSpecModel::Named { domain: None, item }) == element(
            0xA0,
            element(0x80, octets_of(item)),
        ),
        type_bytes(TypeSpecModel::Named { domain: Some(domain), item }) == element(
            0xA0,
            element(0xA1, element(0x1A, octets_of(domain)) + element(0x1A, octets_of(item))),
        ),
        type_bytes(
            TypeSpecModel::Array { packed, elements, element_type: Box::new(inner) },
        ) == element(
            0xA1,
            (if packed {
                element(0x80, flag(true))
            } else {
                Seq::empty()
            }) + (element(0x81, number(elements as int)) + element(0xA2, type_bytes(inner))),
        ),
        type_bytes(TypeSpecModel::Boolean) == element(0x83, Seq::empty()),
        type_bytes(TypeSpecModel::BitString(n)) == element(0x84, number(n as int)),
        type_bytes(TypeSpecModel::Integer(w)) == element(0x85, number(w as int)),
        type_bytes(TypeSpecModel::Unsigned(w)) == element(0x86, number(w as int)),
        type_bytes(
            TypeSpecModel::FloatingPoint { format_width: w, exponent_width: x },
        ) == element(0xA7, element(0x02, number(w as int)) + element(0x02, number(x as int))),
        type_bytes(TypeSpecModel::OctetString(n)) == element(0x89, number(n as int)),
        type_bytes(TypeSpecModel::VisibleString(n)) == element(0x8A, number(n as int)),
        type_bytes(TypeSpecModel::GeneralizedTime) == element(0x8B, Seq::empty()),
        type_bytes(TypeSpecModel::BinaryTime(d)) == element(0x8C, flag(d)),
        type_bytes(TypeSpecModel::Bcd(w)) == element(0x8D, number(w as int)),
        type_bytes(TypeSpecModel::MmsString(n)) == element(0x90, number(n as int)),
        type_bytes(TypeSpecModel::UtcTime) == element(0x91, Seq::empty()),
{
    broadcast use group_wire;

}

/// A structure type lists its components: each a sequence of its name under 80, where it has one, and
/// its type under A1.
pub proof fn lemma_structure_layout(packed: bool, name: Option<Seq<char>>, inner: TypeSpecModel)
    ensures
        type_bytes(
            TypeSpecModel::Structure {
                packed,
                components: seq![ComponentModel { name, type_spec: inner }],
            },
        ) == element(
            0xA2,
            (if packed {
                element(0x80, flag(true))
            } else {
                Seq::empty()
            }) + element(
                0xA1,
                element(0x30, opt_text(0x80, name) + element(0xA1, type_bytes(inner))),
            ),
        ),
{
    broadcast use group_wire;

    let s = seq![ComponentModel { name, type_spec: inner }];
    let c = element(0x30, opt_text(0x80, name) + element(0xA1, type_bytes(inner)));
    assert(components_from(s, 1) == Seq::<u8>::empty());
    assert(components_from(s, 0) == c + components_from(s, 1));
    assert(c + Seq::<u8>::empty() =~= c);
}

// ---- PDUs ------------------------------------------------------------------------------

/// The PDUs: A0 a request, A1 a response, A2 an error, A3 what is not confirmed, A4 a reject, 85 and 86
/// a cancellation and its answer, A7 a refused one, A8 and A9 the two of the initiation, 8B and 8C those
/// of the conclusion. A request and a response name their call in an integer of its own, before the
/// service; an error names it under 80.
pub proof fn lemma_pdu_layout(
    id: i64,
    request: ConfirmedRequestModel,
    response: ConfirmedResponseModel,
    position: u32,
    error: TlvModel,
    access: VariableAccessModel,
    results: Seq<AccessResultModel>,
    reject: Reject,
    initiate: InitiateModel,
)
    requires
        0 <= id,
    ensures
        pdu_bytes(MmsModel::ConfirmedRequest { invoke_id: id, service: request }) == element(
            0xA0,
            element(0x02, number(id as int)) + request_bytes(request),
        ),
        pdu_bytes(MmsModel::ConfirmedResponse { invoke_id: id, service: response }) == element(
            0xA1,
            element(0x02, number(id as int)) + response_bytes(response),
        ),
        pdu_bytes(
            MmsModel::ConfirmedError { invoke_id: id, modifier_position: None, error },
        ) == element(0xA2, element(0x80, number(id as int)) + kept(error)),
        pdu_bytes(
            MmsModel::ConfirmedError { invoke_id: id, modifier_position: Some(position), error },
        ) == element(
            0xA2,
            element(0x80, number(id as int)) + (element(0x81, number(position as int)) + kept(
                error,
            )),
        ),
        pdu_bytes(
            MmsModel::Unconfirmed(UnconfirmedModel::InformationReport { access, results }),
        ) == element(
            0xA3,
            element(
                0xA0,
                access_bytes(access) + element(0xA0, list_bytes::<AccessResult<'static>>(results)),
            ),
        ),
        pdu_bytes(MmsModel::Reject(reject)) == element(0xA4, reject_contents(reject)),
        pdu_bytes(MmsModel::CancelRequest(id)) == element(0x85, number(id as int)),
        pdu_bytes(MmsModel::CancelResponse(id)) == element(0x86, number(id as int)),
        pdu_bytes(MmsModel::CancelError { invoke_id: id, error }) == element(
            0xA7,
            element(0x80, number(id as int)) + kept(error),
        ),
        pdu_bytes(MmsModel::InitiateRequest(initiate)) == element(
            0xA8,
            initiate_contents(initiate),
        ),
        pdu_bytes(MmsModel::InitiateResponse(initiate)) == element(
            0xA9,
            initiate_contents(initiate),
        ),
        pdu_bytes(MmsModel::ConcludeRequest) == element(0x8B, Seq::empty()),
        pdu_bytes(MmsModel::ConcludeResponse) == element(0x8C, Seq::empty()),
{
    broadcast use group_wire;

    let e = kept(error);
    assert(Seq::<u8>::empty() + e =~= e);
}

/// What an initiation proposes: 80 the size, 81 and 82 how many calls may be outstanding in either
/// direction, 83 the nesting, and under A4 the version, the parameters and the services.
pub proof fn lemma_initiate_layout(m: InitiateModel)
    ensures
        initiate_contents(m) == opt_number(0x80, m.local_detail) + (element(
            0x81,
            number(m.max_serv_outstanding_calling as int),
        ) + (element(0x82, number(m.max_serv_outstanding_called as int)) + (opt_number(
            0x83,
            m.data_structure_nesting_level,
        ) + element(
            0xA4,
            element(0x80, number(m.version as int)) + (element(
                0x81,
                seq![m.parameter_cbb.0] + m.parameter_cbb.1,
            ) + element(0x82, seq![m.services_supported.0] + m.services_supported.1)),
        )))),
{
    broadcast use group_wire;

}

/// A reject names the call under 80, where there is one, and then the reason: its table is the tag,
/// and its code the number. A service error is its class as a tag, and its code, inside A0.
pub proof fn lemma_reject_layout(id: i64, code: i64, class: u32)
    requires
        class < 31,
    ensures
        reject_contents(
            Reject {
                original_invoke_id: Some(id),
                reason: RejectReason::ConfirmedRequest(code),
            },
        ) == element(0x80, number(id as int)) + element(0x81, number(code as int)),
        reject_contents(
            Reject { original_invoke_id: None, reason: RejectReason::PduError(code) },
        ) == element(0x85, number(code as int)),
        service_error_contents(class, code) == element(
            0xA0,
            element((0x80 + class) as u8, number(code as int)),
        ),
{
    broadcast use group_wire;

    let r = element(0x85, number(code as int));
    assert(Seq::<u8>::empty() + r =~= r);
}

/// The table of every reason a PDU can be rejected for, by its number.
pub proof fn lemma_reject_tables(code: i64, tag: u32)
    ensures
        reason_from(1, code) == RejectReason::ConfirmedRequest(code),
        reason_from(2, code) == RejectReason::ConfirmedResponse(code),
        reason_from(3, code) == RejectReason::ConfirmedError(code),
        reason_from(4, code) == RejectReason::Unconfirmed(code),
        reason_from(5, code) == RejectReason::PduError(code),
        reason_from(6, code) == RejectReason::CancelRequest(code),
        reason_from(7, code) == RejectReason::CancelResponse(code),
        reason_from(8, code) == RejectReason::CancelError(code),
        reason_from(9, code) == RejectReason::ConcludeRequest(code),
        reason_from(10, code) == RejectReason::ConcludeResponse(code),
        reason_from(11, code) == RejectReason::ConcludeError(code),
        tag == 0 || tag > 11 ==> reason_from(tag, code) == (RejectReason::Other { tag, code }),
        reason_parts(reason_from(tag, code)) == (tag, code),
{
}

/// The octets above are not only what is written: they are read as what they were written for.
pub proof fn lemma_octets_read(m: MmsModel, octets: Seq<u8>, limits: Limits)
    requires
        octets == pdu_bytes(m),
        pdu_fault(m) is None,
        pdu_fits(m, limits),
        octets.len() <= u64::MAX,
    ensures
        mms_of(octets, limits) matches Ok(x) && same_pdu(x, m),
{
    lemma_mms_round_trip(m, limits);
}

/// A call is named by a number of 32 bits without a sign, and by nothing else.
pub proof fn lemma_call_number(t: TlvModel)
    ensures
        invoke_id_in(t) matches Ok(id) ==> 0 <= id <= 4_294_967_295,
        t.integer() matches Ok(v) ==> (invoke_id_in(t) == Ok::<i64, Error>(v) <==> 0 <= v
            <= 4_294_967_295),
        t.integer() is Err ==> invoke_id_in(t) is Err,
{
}

} // verus!
