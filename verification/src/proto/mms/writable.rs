//! What can be written: text that is ASCII, bit strings that are in order, and what is made of them.

use vstd::prelude::*;
use vstd::utf8::*;
use crate::ber::list::{list_fault, list_fault_from, Element};
use crate::common::SelectorModel;
use crate::proto::data::{value_fault, values_fault, values_fault_from, ValueModel};
use crate::proto::goose::apdu::{goose_fault, GooseHeaderModel};
use crate::proto::mms::alternate::steps_fault;
use crate::proto::mms::names::{
    name_fault, scope_fault, ObjectName, ObjectNameModel, ObjectScopeModel,
};
use crate::proto::mms::pdu::{pdu_fault, MmsModel, UnconfirmedModel};
use crate::proto::mms::reject::Reject;
use crate::proto::mms::request::{request_fault, ConfirmedRequestModel};
use crate::proto::mms::response::{response_fault, ConfirmedResponseModel};
use crate::proto::mms::typespec::{components_fault_from, type_fault, ComponentModel, TypeSpecModel};
use crate::proto::mms::variables::{
    access_fault, specification_fault, VariableAccessModel, VariableSpecification,
    VariableSpecificationModel,
};

verus! {

/// Whether optional text is ASCII where there is some.
pub open spec fn opt_ascii(s: Option<Seq<char>>) -> bool {
    s is Some ==> is_ascii_chars(s->0)
}

/// Whether the parts of a bit string are in order: at most seven bits are unused, and none of none.
pub open spec fn bits_in_order(unused: u8, bytes: Seq<u8>) -> bool {
    unused < 8 && (bytes.len() == 0 ==> unused == 0)
}

/// A list can be written when each of its elements can.
pub proof fn lemma_list_writable<'a, T: Element<'a>>(s: Seq<T::V>)
    ensures
        list_fault::<T>(s) is None <==> forall|k: int|
            0 <= k < s.len() ==> T::fault(#[trigger] s[k]) is None,
{
    lemma_list_from::<T>(s, 0);
}

proof fn lemma_list_from<'a, T: Element<'a>>(s: Seq<T::V>, i: nat)
    ensures
        list_fault_from::<T>(s, i) is None <==> forall|k: int|
            i <= k < s.len() ==> T::fault(#[trigger] s[k]) is None,
    decreases s.len() - i,
{
    if i < s.len() {
        lemma_list_from::<T>(s, i + 1);
        assert(s[i as int] == s[i as int]);
    }
}

/// Whether every part of a name is ASCII.
pub open spec fn ascii_name(n: ObjectNameModel) -> bool {
    match n {
        ObjectNameModel::VmdSpecific(s) => is_ascii_chars(s),
        ObjectNameModel::DomainSpecific { domain, item } => is_ascii_chars(domain)
            && is_ascii_chars(item),
        ObjectNameModel::AaSpecific(s) => is_ascii_chars(s),
    }
}

/// A name and a scope can be written when they are ASCII.
pub proof fn lemma_name_writable(n: ObjectNameModel, s: ObjectScopeModel)
    ensures
        name_fault(n) is None <==> ascii_name(n),
        scope_fault(s) is None <==> (s matches ObjectScopeModel::DomainSpecific(d)
            ==> is_ascii_chars(d)),
{
}

/// Whether every component that a path names is ASCII.
pub open spec fn ascii_path(s: Seq<SelectorModel>) -> bool {
    forall|k: int|
        0 <= k < s.len() ==> (#[trigger] s[k] matches SelectorModel::Component(name)
            ==> is_ascii_chars(name))
}

/// A path can be written when every component that it names is ASCII.
pub proof fn lemma_path_writable(s: Seq<SelectorModel>)
    ensures
        steps_fault(s) is None <==> ascii_path(s),
    decreases s.len(),
{
    if s.len() > 0 {
        let rest = s.skip(1);
        lemma_path_writable(rest);
        if ascii_path(s) {
            assert forall|k: int| 0 <= k < rest.len() implies (
            #[trigger] rest[k] matches SelectorModel::Component(name) ==> is_ascii_chars(name)) by {
                assert(rest[k] == s[k + 1]);
            }
            assert(s[0] == s[0]);
        }
        if steps_fault(s) is None {
            assert forall|k: int| 0 <= k < s.len() implies (
            #[trigger] s[k] matches SelectorModel::Component(name) ==> is_ascii_chars(name)) by {
                if k > 0 {
                    assert(rest[k - 1] == s[k]);
                }
            }
        }
    }
}

/// Whether a variable is named in ASCII throughout.
pub open spec fn ascii_variable(s: VariableSpecificationModel) -> bool {
    match s {
        VariableSpecificationModel::Name(n) => ascii_name(n),
        VariableSpecificationModel::Element { name, access } => ascii_name(name) && ascii_path(
            access,
        ),
        VariableSpecificationModel::Other(_) => true,
    }
}

/// Whether every variable of an access is named in ASCII.
pub open spec fn ascii_access(a: VariableAccessModel) -> bool {
    match a {
        VariableAccessModel::ListOfVariable(v) => forall|k: int|
            0 <= k < v.len() ==> ascii_variable(#[trigger] v[k]),
        VariableAccessModel::VariableListName(n) => ascii_name(n),
    }
}

/// Variables, and an access to them, can be written when they are named in ASCII.
pub proof fn lemma_access_writable(s: VariableSpecificationModel, a: VariableAccessModel)
    ensures
        specification_fault(s) is None <==> ascii_variable(s),
        access_fault(a) is None <==> ascii_access(a),
{
    lemma_variable_writable(s);
    if let VariableAccessModel::ListOfVariable(v) = a {
        lemma_variables_writable(v);
    }
}

proof fn lemma_variable_writable(s: VariableSpecificationModel)
    ensures
        specification_fault(s) is None <==> ascii_variable(s),
{
    if let VariableSpecificationModel::Element { access, .. } = s {
        lemma_path_writable(access);
    }
}

proof fn lemma_variables_writable(v: Seq<VariableSpecificationModel>)
    ensures
        list_fault::<VariableSpecification<'static>>(v) is None <==> forall|k: int|
            0 <= k < v.len() ==> ascii_variable(#[trigger] v[k]),
{
    lemma_list_writable::<VariableSpecification<'static>>(v);
    assert forall|k: int| 0 <= k < v.len() implies (
    <VariableSpecification<'static> as Element<'static>>::fault(#[trigger] v[k]) is None
        <==> ascii_variable(v[k])) by {
        lemma_variable_writable(v[k]);
    }
}

/// A request can be written when what it names is ASCII; one that names nothing always can.
pub proof fn lemma_request_writable(m: ConfirmedRequestModel)
    ensures
        match m {
            ConfirmedRequestModel::GetCapabilityList { continue_after } => request_fault(m) is None
                <==> opt_ascii(continue_after),
            ConfirmedRequestModel::GetNameList { scope, continue_after, .. } => request_fault(
                m,
            ) is None <==> scope_fault(scope) is None && opt_ascii(continue_after),
            ConfirmedRequestModel::Read { access, .. } => request_fault(m) is None <==> ascii_access(
                access,
            ),
            ConfirmedRequestModel::Write { access, .. } => request_fault(m) is None <==> ascii_access(
                access,
            ),
            ConfirmedRequestModel::GetNamedVariableListAttributes(n) => request_fault(m) is None
                <==> ascii_name(n),
            ConfirmedRequestModel::GetVariableAccessAttributes(n) => request_fault(m) is None
                <==> ascii_name(n),
            ConfirmedRequestModel::DefineNamedVariableList { name, variables } => request_fault(
                m,
            ) is None <==> ascii_name(name) && forall|k: int|
                0 <= k < variables.len() ==> ascii_variable(#[trigger] variables[k]),
            ConfirmedRequestModel::DeleteNamedVariableList { names, domain, .. } => request_fault(
                m,
            ) is None <==> opt_ascii(domain) && forall|k: int|
                0 <= k < names.len() ==> ascii_name(#[trigger] names[k]),
            ConfirmedRequestModel::ReadJournal(r) => request_fault(m) is None <==> (r.name is Some
                ==> ascii_name(r.name->0)) && forall|k: int|
                0 <= k < r.variables.len() ==> is_ascii_chars(#[trigger] r.variables[k]),
            _ => request_fault(m) is None,
        },
{
    match m {
        ConfirmedRequestModel::Read { access, .. } => {
            lemma_access_writable(VariableSpecificationModel::Name(no_name()), access);
        },
        ConfirmedRequestModel::Write { access, .. } => {
            lemma_access_writable(VariableSpecificationModel::Name(no_name()), access);
        },
        ConfirmedRequestModel::DefineNamedVariableList { name, variables } => {
            lemma_variables_writable(variables);
        },
        ConfirmedRequestModel::DeleteNamedVariableList { names, domain, .. } => {
            lemma_list_writable::<ObjectName<'static>>(names);
            assert forall|k: int| 0 <= k < names.len() implies (<ObjectName<
                'static,
            > as Element<'static>>::fault(#[trigger] names[k]) is None <==> ascii_name(
                names[k],
            )) by {
                lemma_name_writable(names[k], ObjectScopeModel::AaSpecific);
            }
        },
        ConfirmedRequestModel::ReadJournal(r) => {
            lemma_list_writable::<&'static str>(r.variables);
            if let Some(n) = r.name {
                lemma_name_writable(n, ObjectScopeModel::AaSpecific);
            }
        },
        _ => {},
    }
}

spec fn no_name() -> ObjectNameModel {
    ObjectNameModel::VmdSpecific(Seq::empty())
}

/// A response can be written when its texts are ASCII and its bit strings in order; one that has
/// neither always can.
pub proof fn lemma_response_writable(m: ConfirmedResponseModel)
    ensures
        match m {
            ConfirmedResponseModel::Status { local_detail, .. } => response_fault(m) is None <==> (
            local_detail is Some ==> bits_in_order((local_detail->Some_0).0, (local_detail->Some_0).1)),
            ConfirmedResponseModel::GetCapabilityList { capabilities, .. } => response_fault(
                m,
            ) is None <==> forall|k: int|
                0 <= k < capabilities.len() ==> is_ascii_chars(#[trigger] capabilities[k]),
            ConfirmedResponseModel::GetNameList { identifiers, .. } => response_fault(m) is None
                <==> forall|k: int|
                0 <= k < identifiers.len() ==> is_ascii_chars(#[trigger] identifiers[k]),
            ConfirmedResponseModel::Identify { vendor, model, revision } => response_fault(
                m,
            ) is None <==> is_ascii_chars(vendor) && is_ascii_chars(model) && is_ascii_chars(
                revision,
            ),
            ConfirmedResponseModel::Read { access: Some(a), .. } => response_fault(m) is None
                <==> ascii_access(a),
            ConfirmedResponseModel::GetNamedVariableListAttributes {
                variables,
                ..
            } => response_fault(m) is None <==> forall|k: int|
                0 <= k < variables.len() ==> ascii_variable(#[trigger] variables[k]),
            ConfirmedResponseModel::GetVariableAccessAttributes { type_spec, .. } => response_fault(
                m,
            ) is None <==> type_fault(type_spec) is None,
            ConfirmedResponseModel::FileOpen { attributes, .. } => response_fault(m) is None
                <==> opt_ascii(attributes.last_modified),
            ConfirmedResponseModel::ReadJournal { .. } => true,
            ConfirmedResponseModel::FileDirectory { .. } => true,
            _ => response_fault(m) is None,
        },
{
    match m {
        ConfirmedResponseModel::GetCapabilityList { capabilities, .. } => {
            lemma_list_writable::<&'static str>(capabilities);
        },
        ConfirmedResponseModel::GetNameList { identifiers, .. } => {
            lemma_list_writable::<&'static str>(identifiers);
        },
        ConfirmedResponseModel::Read { access: Some(a), .. } => {
            lemma_access_writable(VariableSpecificationModel::Name(no_name()), a);
        },
        ConfirmedResponseModel::GetNamedVariableListAttributes { variables, .. } => {
            lemma_variables_writable(variables);
        },
        _ => {},
    }
}

/// A PDU can be written when its service can, a reject when it names no request or one of 32 bits, and
/// an initiate when its two bit strings are in order. Any other always can.
pub proof fn lemma_pdu_writable(m: MmsModel)
    ensures
        match m {
            MmsModel::ConfirmedRequest { service, .. } => pdu_fault(m) == request_fault(service),
            MmsModel::ConfirmedResponse { service, .. } => pdu_fault(m) == response_fault(service),
            MmsModel::Unconfirmed(UnconfirmedModel::InformationReport { access, .. }) => pdu_fault(
                m,
            ) is None <==> ascii_access(access),
            MmsModel::Reject(r) => pdu_fault(m) is None <==> (r.original_invoke_id is Some ==> 0
                <= r.original_invoke_id->0 <= 0xFFFF_FFFF),
            MmsModel::InitiateRequest(i) => pdu_fault(m) is None <==> bits_in_order(
                i.parameter_cbb.0,
                i.parameter_cbb.1,
            ) && bits_in_order(i.services_supported.0, i.services_supported.1),
            MmsModel::InitiateResponse(i) => pdu_fault(m) is None <==> bits_in_order(
                i.parameter_cbb.0,
                i.parameter_cbb.1,
            ) && bits_in_order(i.services_supported.0, i.services_supported.1),
            _ => pdu_fault(m) is None,
        },
{
    if let MmsModel::Unconfirmed(UnconfirmedModel::InformationReport { access, .. }) = m {
        lemma_access_writable(VariableSpecificationModel::Name(no_name()), access);
    }
}

/// A type can be written when its name and the names of its components are ASCII, at every level.
pub proof fn lemma_type_writable(m: TypeSpecModel, s: Seq<ComponentModel>, i: nat)
    ensures
        match m {
            TypeSpecModel::Named { domain, item } => type_fault(m) is None <==> opt_ascii(domain)
                && is_ascii_chars(item),
            TypeSpecModel::Array { element_type, .. } => type_fault(m) == type_fault(*element_type),
            TypeSpecModel::Structure { components, .. } => type_fault(m) == components_fault_from(
                components,
                0,
            ),
            _ => type_fault(m) is None,
        },
        components_fault_from(s, i) is None <==> forall|k: int|
            i <= k < s.len() ==> opt_ascii((#[trigger] s[k]).name) && type_fault(
                s[k].type_spec,
            ) is None,
    decreases s.len() - i,
{
    if i < s.len() {
        lemma_type_writable(m, s, i + 1);
        assert(s[i as int] == s[i as int]);
    }
}

/// A value can be written when its text is ASCII and its bit string in order, and an array or a
/// structure when each of its members can. Any other value always can.
pub proof fn lemma_value_writable(v: ValueModel)
    ensures
        match v {
            ValueModel::Array(m) => value_fault(v) is None <==> forall|k: int|
                0 <= k < m.len() ==> value_fault(#[trigger] m[k]) is None,
            ValueModel::Structure(m) => value_fault(v) is None <==> forall|k: int|
                0 <= k < m.len() ==> value_fault(#[trigger] m[k]) is None,
            ValueModel::BitString { unused, bytes } => value_fault(v) is None <==> bits_in_order(
                unused,
                bytes,
            ),
            ValueModel::VisibleString(s) => value_fault(v) is None <==> is_ascii_chars(s),
            _ => value_fault(v) is None,
        },
{
    match v {
        ValueModel::Array(m) => lemma_values_writable(m, 0),
        ValueModel::Structure(m) => lemma_values_writable(m, 0),
        _ => {},
    }
}

/// Values can be written when each of them can.
pub proof fn lemma_values_writable(s: Seq<ValueModel>, i: nat)
    ensures
        values_fault_from(s, i) is None <==> forall|k: int|
            i <= k < s.len() ==> value_fault(#[trigger] s[k]) is None,
        values_fault(s) == values_fault_from(s, 0),
    decreases s.len() - i,
{
    if i < s.len() {
        lemma_values_writable(s, i + 1);
        assert(s[i as int] == s[i as int]);
    }
}

/// A GOOSE header can be written when its names are ASCII.
pub proof fn lemma_goose_writable(h: GooseHeaderModel)
    ensures
        goose_fault(h) is None <==> is_ascii_chars(h.gocb_ref) && is_ascii_chars(h.dat_set)
            && opt_ascii(h.go_id),
{
}

} // verus!
