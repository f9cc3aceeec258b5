//! Confirmed service requests.

use vstd::prelude::*;
use crate::ber::laws;
use crate::ber::list::{
    agrees_list, lemma_faultless, lemma_list_decoded, lemma_list_round_trip, lemma_same_octets,
    list_bytes, list_fault, list_fits, listed, read_list, same_list, views, write_list, Element,
};
use crate::ber::{
    bad, bool_octets, ctx, ctx_cons, first_fault, flag_bytes, octets_of, opt_integer_bytes,
    opt_text_bytes, opt_text_fault, opt_view, sint_octets, tlv, wrote, Class, Cursor, CursorModel,
    Encoder, Tag, Tlv, TlvModel,
};
use crate::common::{agrees, agrees_opt, DecodeReason, Error, Limits};
use crate::proto::mms::delete_scope;
use crate::proto::mms::file::{
    file_name_fits, file_name_of, lemma_file_name_decoded, lemma_file_name_round_trip, FileName,
};
use crate::proto::mms::names::{
    identifier_tag, lemma_name_decoded, lemma_name_round_trip, lemma_scope_decoded,
    lemma_scope_round_trip, name_bytes, name_contents, name_fault, name_of, name_tag, same_element,
    same_scope, scope_bytes, scope_contents, scope_fault, scope_fits, scope_of, scope_tag,
    tag_identifier, ObjectName, ObjectNameModel, ObjectScope, ObjectScopeModel,
};
use crate::proto::mms::read_journal::{
    lemma_read_journal_decoded, lemma_read_journal_round_trip, read_journal_contents,
    read_journal_fault, read_journal_fits, read_journal_of, ReadJournal, ReadJournalModel,
};
use crate::proto::mms::variables::{
    access_bytes, access_contents, access_fault, access_fits, access_of, access_tag, bound_items,
    bound_members, items_bound, lemma_access_decoded, lemma_access_round_trip,
    lemma_same_access_octets, members_bound, parse_variable_list, same_access, variable_list_of,
    VariableAccess, VariableAccessModel, VariableSpecification, VariableSpecificationModel,
};

verus! {

/// `status`.
pub const SERVICE_STATUS: u32 = 0;
/// `getNameList`.
pub const SERVICE_GET_NAME_LIST: u32 = 1;
/// `identify`.
pub const SERVICE_IDENTIFY: u32 = 2;
/// `read`.
pub const SERVICE_READ: u32 = 4;
/// `write`.
pub const SERVICE_WRITE: u32 = 5;
/// `getVariableAccessAttributes`.
pub const SERVICE_GET_VARIABLE_ACCESS_ATTRIBUTES: u32 = 6;
/// `defineNamedVariableList`.
pub const SERVICE_DEFINE_NVL: u32 = 11;
/// `getNamedVariableListAttributes`.
pub const SERVICE_GET_NVL_ATTRIBUTES: u32 = 12;
/// `deleteNamedVariableList`.
pub const SERVICE_DELETE_NVL: u32 = 13;
/// `getCapabilityList`.
pub const SERVICE_GET_CAPABILITY_LIST: u32 = 71;
/// `fileOpen`.
pub const SERVICE_FILE_OPEN: u32 = 72;
/// `fileRead`.
pub const SERVICE_FILE_READ: u32 = 73;
/// `fileClose`.
pub const SERVICE_FILE_CLOSE: u32 = 74;
/// `fileDelete`.
pub const SERVICE_FILE_DELETE: u32 = 76;
/// `fileDirectory`.
pub const SERVICE_FILE_DIRECTORY: u32 = 77;

/// Whether a service number has a variant of its own.
pub open spec fn known_service(n: u32) -> bool {
    n <= 2 || 4 <= n <= 6 || 11 <= n <= 13 || n == 65 || 71 <= n <= 74 || n == 76 || n == 77
}

/// A confirmed service request.
#[derive(Clone, Debug, PartialEq)]
pub enum ConfirmedRequest<'a> {
    /// `status [0]`.
    Status {
        /// `extendedDerivation`: derive the status anew instead of reporting the cached one.
        extended_derivation: bool,
    },
    /// `getCapabilityList [71]`.
    GetCapabilityList {
        /// Continue after this capability, when a previous answer said `moreFollows`.
        continue_after: Option<&'a str>,
    },
    /// `getNameList [1]`: browse the server's names.
    GetNameList {
        /// The object class asked for.
        object_class: i64,
        /// Where to look.
        scope: ObjectScope<'a>,
        /// Continue after this name, when a previous answer said `moreFollows`.
        continue_after: Option<&'a str>,
    },
    /// `identify [2]`.
    Identify,
    /// `read [4]`.
    Read {
        /// Ask the server to name what it returns.
        specification_with_result: bool,
        /// What to read.
        access: VariableAccess<'a>,
    },
    /// `write [5]`.
    Write {
        /// What to write to.
        access: VariableAccess<'a>,
        /// The values, in the order of the access specification, as their encoded elements.
        values: Vec<Tlv<'a>>,
    },
    /// `getNamedVariableListAttributes [12]`: what is in a data set.
    GetNamedVariableListAttributes(ObjectName<'a>),
    /// `getVariableAccessAttributes [6]`: what type a variable is.
    GetVariableAccessAttributes(ObjectName<'a>),
    /// `defineNamedVariableList [11]`: create a data set.
    DefineNamedVariableList {
        /// The data set's name.
        name: ObjectName<'a>,
        /// Its members.
        variables: Vec<VariableSpecification<'a>>,
    },
    /// `deleteNamedVariableList [13]`: delete data sets.
    DeleteNamedVariableList {
        /// `scopeOfDelete`.
        scope: i64,
        /// The lists to delete, for the specific scope.
        names: Vec<ObjectName<'a>>,
        /// The domain, for the domain scope.
        domain: Option<&'a str>,
    },
    /// `readJournal [65]`.
    ReadJournal(ReadJournal<'a>),
    /// `fileOpen [72]`.
    FileOpen {
        /// The file.
        name: FileName<'a>,
        /// Where in it to start reading.
        position: u32,
    },
    /// `fileRead [73]`: the handle a `fileOpen` returned.
    FileRead(i32),
    /// `fileClose [74]`.
    FileClose(i32),
    /// `fileDelete [76]`.
    FileDelete(FileName<'a>),
    /// `fileDirectory [77]`.
    FileDirectory {
        /// Which files; `None` is all of them.
        specification: Option<FileName<'a>>,
        /// Continue after this name, when a previous answer said `moreFollows`.
        continue_after: Option<FileName<'a>>,
    },
    /// Any other service, kept whole.
    Other(Tlv<'a>),
}

/// What a [`ConfirmedRequest`] stands for.
pub enum ConfirmedRequestModel {
    Status { extended_derivation: bool },
    GetCapabilityList { continue_after: Option<Seq<char>> },
    GetNameList {
        object_class: i64,
        scope: ObjectScopeModel,
        continue_after: Option<Seq<char>>,
    },
    Identify,
    Read { specification_with_result: bool, access: VariableAccessModel },
    Write { access: VariableAccessModel, values: Seq<TlvModel> },
    GetNamedVariableListAttributes(ObjectNameModel),
    GetVariableAccessAttributes(ObjectNameModel),
    DefineNamedVariableList { name: ObjectNameModel, variables: Seq<VariableSpecificationModel> },
    DeleteNamedVariableList {
        scope: i64,
        names: Seq<ObjectNameModel>,
        domain: Option<Seq<char>>,
    },
    ReadJournal(ReadJournalModel),
    FileOpen { name: Seq<u8>, position: u32 },
    FileRead(i32),
    FileClose(i32),
    FileDelete(Seq<u8>),
    FileDirectory { specification: Option<Seq<u8>>, continue_after: Option<Seq<u8>> },
    Other(TlvModel),
}

impl<'a> View for ConfirmedRequest<'a> {
    type V = ConfirmedRequestModel;

    open spec fn view(&self) -> ConfirmedRequestModel {
        match *self {
            ConfirmedRequest::Status { extended_derivation } => ConfirmedRequestModel::Status {
                extended_derivation,
            },
            ConfirmedRequest::GetCapabilityList {
                continue_after,
            } => ConfirmedRequestModel::GetCapabilityList {
                continue_after: opt_view(continue_after),
            },
            ConfirmedRequest::GetNameList {
                object_class,
                scope,
                continue_after,
            } => ConfirmedRequestModel::GetNameList {
                object_class,
                scope: scope@,
                continue_after: opt_view(continue_after),
            },
            ConfirmedRequest::Identify => ConfirmedRequestModel::Identify,
            ConfirmedRequest::Read {
                specification_with_result,
                access,
            } => ConfirmedRequestModel::Read { specification_with_result, access: access@ },
            ConfirmedRequest::Write { access, values } => ConfirmedRequestModel::Write {
                access: access@,
                values: views(values@),
            },
            ConfirmedRequest::GetNamedVariableListAttributes(
                n,
            ) => ConfirmedRequestModel::GetNamedVariableListAttributes(n@),
            ConfirmedRequest::GetVariableAccessAttributes(
                n,
            ) => ConfirmedRequestModel::GetVariableAccessAttributes(n@),
            ConfirmedRequest::DefineNamedVariableList {
                name,
                variables,
            } => ConfirmedRequestModel::DefineNamedVariableList {
                name: name@,
                variables: views(variables@),
            },
            ConfirmedRequest::DeleteNamedVariableList {
                scope,
                names,
                domain,
            } => ConfirmedRequestModel::DeleteNamedVariableList {
                scope,
                names: views(names@),
                domain: opt_view(domain),
            },
            ConfirmedRequest::ReadJournal(r) => ConfirmedRequestModel::ReadJournal(r@),
            ConfirmedRequest::FileOpen { name, position } => ConfirmedRequestModel::FileOpen {
                name: name@,
                position,
            },
            ConfirmedRequest::FileRead(id) => ConfirmedRequestModel::FileRead(id),
            ConfirmedRequest::FileClose(id) => ConfirmedRequestModel::FileClose(id),
            ConfirmedRequest::FileDelete(name) => ConfirmedRequestModel::FileDelete(name@),
            ConfirmedRequest::FileDirectory {
                specification,
                continue_after,
            } => ConfirmedRequestModel::FileDirectory {
                specification: opt_view(specification),
                continue_after: opt_view(continue_after),
            },
            ConfirmedRequest::Other(t) => ConfirmedRequestModel::Other(t@),
        }
    }
}

// ---- decoding --------------------------------------------------------------------------

/// A `getNameList` request.
pub open spec fn name_list_request(t: TlvModel) -> Result<ConfirmedRequestModel, Error> {
    let c = t.children();
    match c.wrapped(ctx_cons(0)) {
        Err(e) => Err(e),
        Ok(k) => match k.integer() {
            Err(e) => Err(e),
            Ok(object_class) => match c.rest().wrapped(ctx_cons(1)) {
                Err(e) => Err(e),
                Ok(s) => match scope_of(s) {
                    Err(e) => Err(e),
                    Ok(scope) => match c.rest().rest().opt_visible(ctx(2)) {
                        Err(e) => Err(e),
                        Ok(continue_after) => Ok(
                            ConfirmedRequestModel::GetNameList {
                                object_class,
                                scope,
                                continue_after,
                            },
                        ),
                    },
                },
            },
        },
    }
}

/// A `read` request.
pub open spec fn read_request(t: TlvModel) -> Result<ConfirmedRequestModel, Error> {
    let c = t.children();
    match c.flag(ctx(0), false) {
        Err(e) => Err(e),
        Ok(specification_with_result) => match c.skip_optional(ctx(0)).wrapped(ctx_cons(1)) {
            Err(e) => Err(e),
            Ok(a) => match access_of(a) {
                Err(e) => Err(e),
                Ok(access) => Ok(
                    ConfirmedRequestModel::Read { specification_with_result, access },
                ),
            },
        },
    }
}

/// A `write` request.
pub open spec fn write_request(t: TlvModel, limits: Limits) -> Result<
    ConfirmedRequestModel,
    Error,
> {
    let c = t.children();
    match c.first() {
        Err(e) => Err(e),
        Ok(a) => match access_of(a) {
            Err(e) => Err(e),
            Ok(access) => match c.rest().tagged(ctx_cons(0)) {
                Err(e) => Err(e),
                Ok(list) => match listed::<Tlv<'static>>(
                    list.children(),
                    limits,
                    members_bound(limits),
                    Seq::empty(),
                ) {
                    Err(e) => Err(e),
                    Ok(values) => Ok(ConfirmedRequestModel::Write { access, values }),
                },
            },
        },
    }
}

/// The object name inside an element.
pub open spec fn inner_name(t: TlvModel) -> Result<ObjectNameModel, Error> {
    match t.children().first() {
        Err(e) => Err(e),
        Ok(n) => name_of(n),
    }
}

/// A `defineNamedVariableList` request.
pub open spec fn define_request(t: TlvModel, limits: Limits) -> Result<
    ConfirmedRequestModel,
    Error,
> {
    let c = t.children();
    match inner_name(t) {
        Err(e) => Err(e),
        Ok(name) => match c.rest().tagged(ctx_cons(0)) {
            Err(e) => Err(e),
            Ok(list) => match variable_list_of(list, limits) {
                Err(e) => Err(e),
                Ok(variables) => Ok(
                    ConfirmedRequestModel::DefineNamedVariableList { name, variables },
                ),
            },
        },
    }
}

/// A list of object names under `[1]`; none where it is absent.
pub open spec fn names_at(c: CursorModel, limits: Limits) -> Result<Seq<ObjectNameModel>, Error> {
    match c.optional(ctx_cons(1)) {
        Err(e) => Err(e),
        Ok(None) => Ok(Seq::empty()),
        Ok(Some(list)) => listed::<ObjectName<'static>>(
            list.children(),
            limits,
            items_bound(limits),
            Seq::empty(),
        ),
    }
}

/// A `deleteNamedVariableList` request.
pub open spec fn delete_request(t: TlvModel, limits: Limits) -> Result<
    ConfirmedRequestModel,
    Error,
> {
    let c0 = t.children();
    let c1 = c0.skip_optional(ctx(0));
    let c2 = c1.skip_optional(ctx_cons(1));
    match c0.opt_integer(ctx(0)) {
        Err(e) => Err(e),
        Ok(scope) => match names_at(c1, limits) {
            Err(e) => Err(e),
            Ok(names) => match c2.opt_visible(ctx(2)) {
                Err(e) => Err(e),
                Ok(domain) => Ok(
                    ConfirmedRequestModel::DeleteNamedVariableList {
                        scope: match scope {
                            Some(s) => s,
                            None => 0,
                        },
                        names,
                        domain,
                    },
                ),
            },
        },
    }
}

/// A `fileOpen` request.
pub open spec fn file_open_request(t: TlvModel, limits: Limits) -> Result<
    ConfirmedRequestModel,
    Error,
> {
    let c = t.children();
    match c.tagged(ctx_cons(0)) {
        Err(e) => Err(e),
        Ok(n) => match file_name_of(n, limits) {
            Err(e) => Err(e),
            Ok(name) => match c.rest().unsigned32(ctx(1)) {
                Err(e) => Err(e),
                Ok(position) => Ok(ConfirmedRequestModel::FileOpen { name, position }),
            },
        },
    }
}

/// A file name under `tag`, if it is there.
pub open spec fn opt_file_name(c: CursorModel, tag: Tag, limits: Limits) -> Result<
    Option<Seq<u8>>,
    Error,
> {
    match c.optional(tag) {
        Err(e) => Err(e),
        Ok(None) => Ok(None),
        Ok(Some(t)) => match file_name_of(t, limits) {
            Err(e) => Err(e),
            Ok(n) => Ok(Some(n)),
        },
    }
}

/// A `fileDirectory` request.
pub open spec fn file_directory_request(t: TlvModel, limits: Limits) -> Result<
    ConfirmedRequestModel,
    Error,
> {
    let c = t.children();
    match opt_file_name(c, ctx_cons(0), limits) {
        Err(e) => Err(e),
        Ok(specification) => match opt_file_name(
            c.skip_optional(ctx_cons(0)),
            ctx_cons(1),
            limits,
        ) {
            Err(e) => Err(e),
            Ok(continue_after) => Ok(
                ConfirmedRequestModel::FileDirectory { specification, continue_after },
            ),
        },
    }
}

/// The request an element holds, by its context tag number.
pub open spec fn request_of(t: TlvModel, limits: Limits) -> Result<ConfirmedRequestModel, Error> {
    if t.tag.class != Class::Context {
        bad(DecodeReason::UnexpectedTag, t.offset)
    } else {
        match t.tag.number {
            0 => match t.boolean() {
                Err(e) => Err(e),
                Ok(extended_derivation) => Ok(
                    ConfirmedRequestModel::Status { extended_derivation },
                ),
            },
            1 => name_list_request(t),
            2 => Ok(ConfirmedRequestModel::Identify),
            4 => read_request(t),
            5 => write_request(t, limits),
            6 => match t.children().wrapped(ctx_cons(0)) {
                Err(e) => Err(e),
                Ok(n) => match name_of(n) {
                    Err(e) => Err(e),
                    Ok(name) => Ok(ConfirmedRequestModel::GetVariableAccessAttributes(name)),
                },
            },
            11 => define_request(t, limits),
            12 => match inner_name(t) {
                Err(e) => Err(e),
                Ok(name) => Ok(ConfirmedRequestModel::GetNamedVariableListAttributes(name)),
            },
            13 => delete_request(t, limits),
            65 => match read_journal_of(t, limits) {
                Err(e) => Err(e),
                Ok(r) => Ok(ConfirmedRequestModel::ReadJournal(r)),
            },
            71 => match t.children().opt_visible(identifier_tag()) {
                Err(e) => Err(e),
                Ok(continue_after) => Ok(
                    ConfirmedRequestModel::GetCapabilityList { continue_after },
                ),
            },
            72 => file_open_request(t, limits),
            73 => match t.integer32() {
                Err(e) => Err(e),
                Ok(id) => Ok(ConfirmedRequestModel::FileRead(id)),
            },
            74 => match t.integer32() {
                Err(e) => Err(e),
                Ok(id) => Ok(ConfirmedRequestModel::FileClose(id)),
            },
            76 => match file_name_of(t, limits) {
                Err(e) => Err(e),
                Ok(name) => Ok(ConfirmedRequestModel::FileDelete(name)),
            },
            77 => file_directory_request(t, limits),
            _ => Ok(ConfirmedRequestModel::Other(t)),
        }
    }
}

fn parse_name_list<'a>(t: &Tlv<'a>) -> (r: Result<ConfirmedRequest<'a>, Error>)
    ensures
        agrees(r, name_list_request(t@)),
{
    let mut c = t.children();
    let k = c.next_tag(Tag::context_constructed(0))?.children().next_required()?;
    let object_class: i64 = k.integer_i64()?;
    let s = c.next_tag(Tag::context_constructed(1))?.children().next_required()?;
    let scope = ObjectScope::parse(s)?;
    let continue_after = c.next_opt_visible(Tag::context(2))?;
    Ok(ConfirmedRequest::GetNameList { object_class, scope, continue_after })
}

fn parse_read<'a>(t: &Tlv<'a>) -> (r: Result<ConfirmedRequest<'a>, Error>)
    ensures
        agrees(r, read_request(t@)),
{
    let mut c = t.children();
    let specification_with_result = c.next_flag(Tag::context(0), false)?;
    let a = c.next_tag(Tag::context_constructed(1))?.children().next_required()?;
    let access = VariableAccess::parse(&a)?;
    Ok(ConfirmedRequest::Read { specification_with_result, access })
}

fn parse_write<'a>(t: &Tlv<'a>, limits: &Limits) -> (r: Result<ConfirmedRequest<'a>, Error>)
    ensures
        agrees(r, write_request(t@, *limits)),
{
    let mut c = t.children();
    let a = c.next_required()?;
    let access = VariableAccess::parse(&a)?;
    let list = c.next_tag(Tag::context_constructed(0))?;
    let values = read_list::<Tlv<'a>>(list.children(), limits, bound_members(limits))?;
    Ok(ConfirmedRequest::Write { access, values })
}

fn parse_define<'a>(t: &Tlv<'a>, limits: &Limits) -> (r: Result<ConfirmedRequest<'a>, Error>)
    ensures
        agrees(r, define_request(t@, *limits)),
{
    let mut c = t.children();
    let n = c.next_required()?;
    let name = ObjectName::parse(&n)?;
    let list = c.next_tag(Tag::context_constructed(0))?;
    let variables = parse_variable_list(&list, limits)?;
    Ok(ConfirmedRequest::DefineNamedVariableList { name, variables })
}

fn next_names<'a>(c: &mut Cursor<'a>, limits: &Limits) -> (r: Result<Vec<ObjectName<'a>>, Error>)
    ensures
        agrees_list(r, names_at(old(c)@, *limits)),
        final(c)@ == old(c)@.skip_optional(ctx_cons(1)),
{
    match c.next_if_tag(Tag::context_constructed(1))? {
        Some(list) => read_list::<ObjectName<'a>>(list.children(), limits, bound_items(limits)),
        None => {
            let none: Vec<ObjectName<'a>> = Vec::new();
            assert(views(none@) =~= Seq::<ObjectNameModel>::empty());
            Ok(none)
        },
    }
}

fn parse_delete<'a>(t: &Tlv<'a>, limits: &Limits) -> (r: Result<ConfirmedRequest<'a>, Error>)
    ensures
        agrees(r, delete_request(t@, *limits)),
{
    let mut c = t.children();
    let scope: i64 = match c.next_opt_integer(Tag::context(0))? {
        Some(s) => s,
        None => delete_scope::SPECIFIC,
    };
    let names = next_names(&mut c, limits)?;
    let domain = c.next_opt_visible(Tag::context(2))?;
    Ok(ConfirmedRequest::DeleteNamedVariableList { scope, names, domain })
}

fn parse_file_open<'a>(t: &Tlv<'a>, limits: &Limits) -> (r: Result<ConfirmedRequest<'a>, Error>)
    ensures
        agrees(r, file_open_request(t@, *limits)),
{
    let mut c = t.children();
    let n = c.next_tag(Tag::context_constructed(0))?;
    let name = FileName::parse(&n, limits)?;
    let position: u32 = c.next_tag(Tag::context(1))?.unsigned_lenient_u32()?;
    Ok(ConfirmedRequest::FileOpen { name, position })
}

fn next_file_name<'a>(c: &mut Cursor<'a>, tag: Tag, limits: &Limits) -> (r: Result<
    Option<FileName<'a>>,
    Error,
>)
    ensures
        agrees_opt(r, opt_file_name(old(c)@, tag, *limits)),
        final(c)@ == old(c)@.skip_optional(tag),
{
    match c.next_if_tag(tag)? {
        Some(t) => Ok(Some(FileName::parse(&t, limits)?)),
        None => Ok(None),
    }
}

fn parse_file_directory<'a>(t: &Tlv<'a>, limits: &Limits) -> (r: Result<
    ConfirmedRequest<'a>,
    Error,
>)
    ensures
        agrees(r, file_directory_request(t@, *limits)),
{
    let mut c = t.children();
    let specification = next_file_name(&mut c, Tag::context_constructed(0), limits)?;
    let continue_after = next_file_name(&mut c, Tag::context_constructed(1), limits)?;
    Ok(ConfirmedRequest::FileDirectory { specification, continue_after })
}

// ---- encoding --------------------------------------------------------------------------

/// The tag a request is encoded under.
pub open spec fn request_tag(m: ConfirmedRequestModel) -> Tag {
    match m {
        ConfirmedRequestModel::Status { .. } => ctx(0),
        ConfirmedRequestModel::GetCapabilityList { .. } => ctx_cons(71),
        ConfirmedRequestModel::GetNameList { .. } => ctx_cons(1),
        ConfirmedRequestModel::Identify => ctx(2),
        ConfirmedRequestModel::Read { .. } => ctx_cons(4),
        ConfirmedRequestModel::Write { .. } => ctx_cons(5),
        ConfirmedRequestModel::GetNamedVariableListAttributes(_) => ctx_cons(12),
        ConfirmedRequestModel::GetVariableAccessAttributes(_) => ctx_cons(6),
        ConfirmedRequestModel::DefineNamedVariableList { .. } => ctx_cons(11),
        ConfirmedRequestModel::DeleteNamedVariableList { .. } => ctx_cons(13),
        ConfirmedRequestModel::ReadJournal(_) => ctx_cons(65),
        ConfirmedRequestModel::FileOpen { .. } => ctx_cons(72),
        ConfirmedRequestModel::FileRead(_) => ctx(73),
        ConfirmedRequestModel::FileClose(_) => ctx(74),
        ConfirmedRequestModel::FileDelete(_) => ctx_cons(76),
        ConfirmedRequestModel::FileDirectory { .. } => ctx_cons(77),
        ConfirmedRequestModel::Other(t) => t.tag,
    }
}

/// A list of names under `[1]`, where there are any.
pub open spec fn names_bytes(names: Seq<ObjectNameModel>) -> Seq<u8> {
    if names.len() == 0 {
        Seq::empty()
    } else {
        tlv(ctx_cons(1), list_bytes::<ObjectName<'static>>(names))
    }
}

/// The scope of a deletion, unless it is the default.
pub open spec fn written_scope(scope: i64) -> Option<i64> {
    if scope == 0 {
        None
    } else {
        Some(scope)
    }
}

/// A file name under `tag`, where there is one.
pub open spec fn opt_file_name_bytes(tag: Tag, name: Option<Seq<u8>>) -> Seq<u8> {
    match name {
        Some(n) => tlv(tag, n),
        None => Seq::empty(),
    }
}

/// The contents octets of a request.
pub open spec fn request_contents(m: ConfirmedRequestModel) -> Seq<u8> {
    match m {
        ConfirmedRequestModel::Status { extended_derivation } => bool_octets(extended_derivation),
        ConfirmedRequestModel::GetCapabilityList { continue_after } => opt_text_bytes(
            identifier_tag(),
            continue_after,
        ),
        ConfirmedRequestModel::GetNameList { object_class, scope, continue_after } => tlv(
            ctx_cons(0),
            tlv(ctx(0), sint_octets(object_class as int)),
        ) + (tlv(ctx_cons(1), scope_bytes(scope)) + opt_text_bytes(ctx(2), continue_after)),
        ConfirmedRequestModel::Identify => Seq::empty(),
        ConfirmedRequestModel::Read { specification_with_result, access } => flag_bytes(
            ctx(0),
            specification_with_result,
            false,
        ) + tlv(ctx_cons(1), access_bytes(access)),
        ConfirmedRequestModel::Write { access, values } => access_bytes(access) + tlv(
            ctx_cons(0),
            list_bytes::<Tlv<'static>>(values),
        ),
        ConfirmedRequestModel::GetNamedVariableListAttributes(n) => name_bytes(n),
        ConfirmedRequestModel::GetVariableAccessAttributes(n) => tlv(ctx_cons(0), name_bytes(n)),
        ConfirmedRequestModel::DefineNamedVariableList { name, variables } => name_bytes(name)
            + tlv(ctx_cons(0), list_bytes::<VariableSpecification<'static>>(variables)),
        ConfirmedRequestModel::DeleteNamedVariableList {
            scope,
            names,
            domain,
        } => opt_integer_bytes(ctx(0), written_scope(scope)) + (names_bytes(names)
            + opt_text_bytes(ctx(2), domain)),
        ConfirmedRequestModel::ReadJournal(r) => read_journal_contents(r),
        ConfirmedRequestModel::FileOpen { name, position } => tlv(ctx_cons(0), name) + tlv(
            ctx(1),
            sint_octets(position as int),
        ),
        ConfirmedRequestModel::FileRead(id) => sint_octets(id as int),
        ConfirmedRequestModel::FileClose(id) => sint_octets(id as int),
        ConfirmedRequestModel::FileDelete(name) => name,
        ConfirmedRequestModel::FileDirectory { specification, continue_after } => {
            opt_file_name_bytes(ctx_cons(0), specification) + opt_file_name_bytes(
                ctx_cons(1),
                continue_after,
            )
        },
        ConfirmedRequestModel::Other(t) => t.value,
    }
}

/// The encoding of a request.
pub open spec fn request_bytes(m: ConfirmedRequestModel) -> Seq<u8> {
    tlv(request_tag(m), request_contents(m))
}

/// Why a request has no encoding.
pub open spec fn request_fault(m: ConfirmedRequestModel) -> Option<Error> {
    match m {
        ConfirmedRequestModel::GetCapabilityList { continue_after } => opt_text_fault(
            continue_after,
        ),
        ConfirmedRequestModel::GetNameList { scope, continue_after, .. } => first_fault(
            scope_fault(scope),
            opt_text_fault(continue_after),
        ),
        ConfirmedRequestModel::Read { access, .. } => access_fault(access),
        ConfirmedRequestModel::Write { access, .. } => access_fault(access),
        ConfirmedRequestModel::GetNamedVariableListAttributes(n) => name_fault(n),
        ConfirmedRequestModel::GetVariableAccessAttributes(n) => name_fault(n),
        ConfirmedRequestModel::DefineNamedVariableList { name, variables } => first_fault(
            name_fault(name),
            list_fault::<VariableSpecification<'static>>(variables),
        ),
        ConfirmedRequestModel::DeleteNamedVariableList { names, domain, .. } => first_fault(
            list_fault::<ObjectName<'static>>(names),
            opt_text_fault(domain),
        ),
        ConfirmedRequestModel::ReadJournal(r) => read_journal_fault(r),
        _ => None,
    }
}

proof fn lemma_no_fault_in_values(s: Seq<TlvModel>, i: nat)
    ensures
        crate::ber::list::list_fault_from::<Tlv<'static>>(s, i) is None,
    decreases s.len() - i,
{
    if i < s.len() {
        lemma_no_fault_in_values(s, i + 1);
    }
}

fn body_name_list(object_class: i64, scope: &ObjectScope<'_>, continue_after: Option<&str>) -> (r:
    Result<Encoder, Error>)
    ensures
        ({
            let m = ConfirmedRequestModel::GetNameList {
                object_class,
                scope: scope@,
                continue_after: opt_view(continue_after),
            };
            match request_fault(m) {
                None => r matches Ok(e) && e@ == request_contents(m),
                Some(f) => r == Err::<Encoder, Error>(f),
            }
        }),
{
    let mut body = Encoder::new();
    let mut class = Encoder::new();
    class.integer(Tag::context(0), object_class);
    assert(class@ =~= tlv(ctx(0), sint_octets(object_class as int)));
    body.constructed(Tag::context_constructed(0), &class);
    let mut inner = Encoder::new();
    scope.write(&mut inner)?;
    assert(inner@ =~= scope_bytes(scope@));
    body.constructed(Tag::context_constructed(1), &inner);
    body.opt_visible_string(Tag::context(2), continue_after)?;
    proof {
        let m = ConfirmedRequestModel::GetNameList {
            object_class,
            scope: scope@,
            continue_after: opt_view(continue_after),
        };
        assert(body@ =~= request_contents(m));
    }
    Ok(body)
}

fn body_write<'a>(access: &VariableAccess<'a>, values: &Vec<Tlv<'a>>) -> (r: Result<Encoder, Error>)
    ensures
        ({
            let m = ConfirmedRequestModel::Write { access: access@, values: views(values@) };
            match request_fault(m) {
                None => r matches Ok(e) && e@ == request_contents(m),
                Some(f) => r == Err::<Encoder, Error>(f),
            }
        }),
{
    let mut body = Encoder::new();
    access.write(&mut body)?;
    proof {
        lemma_no_fault_in_values(views(values@), 0);
    }
    let list = write_list(values.as_slice())?;
    body.constructed(Tag::context_constructed(0), &list);
    proof {
        let m = ConfirmedRequestModel::Write { access: access@, values: views(values@) };
        assert(body@ =~= request_contents(m));
    }
    Ok(body)
}

fn body_delete<'a>(scope: i64, names: &Vec<ObjectName<'a>>, domain: Option<&str>) -> (r: Result<
    Encoder,
    Error,
>)
    ensures
        ({
            let m = ConfirmedRequestModel::DeleteNamedVariableList {
                scope,
                names: views(names@),
                domain: opt_view(domain),
            };
            match request_fault(m) {
                None => r matches Ok(e) && e@ == request_contents(m),
                Some(f) => r == Err::<Encoder, Error>(f),
            }
        }),
{
    let mut body = Encoder::new();
    let written: Option<i64> = if scope == delete_scope::SPECIFIC {
        None
    } else {
        Some(scope)
    };
    body.opt_integer(Tag::context(0), written);
    let list = write_list(names.as_slice())?;
    if names.len() > 0 {
        body.constructed(Tag::context_constructed(1), &list);
    }
    body.opt_visible_string(Tag::context(2), domain)?;
    proof {
        let m = ConfirmedRequestModel::DeleteNamedVariableList {
            scope,
            names: views(names@),
            domain: opt_view(domain),
        };
        assert(body@ =~= request_contents(m));
    }
    Ok(body)
}

impl<'a> ConfirmedRequest<'a> {
    /// Decode one service request.
    pub fn parse(t: Tlv<'a>, limits: &Limits) -> (r: Result<ConfirmedRequest<'a>, Error>)
        ensures
            agrees(r, request_of(t@, *limits)),
    {
        if t.tag.class != Class::Context {
            return Err(Error::decode(DecodeReason::UnexpectedTag, t.offset));
        }
        match t.tag.number {
            0 => Ok(ConfirmedRequest::Status { extended_derivation: t.boolean()? }),
            1 => parse_name_list(&t),
            2 => Ok(ConfirmedRequest::Identify),
            4 => parse_read(&t),
            5 => parse_write(&t, limits),
            6 => {
                let n = t.children().next_tag(Tag::context_constructed(0))?;
                let n = n.children().next_required()?;
                Ok(ConfirmedRequest::GetVariableAccessAttributes(ObjectName::parse(&n)?))
            },
            11 => parse_define(&t, limits),
            12 => {
                let n = t.children().next_required()?;
                Ok(ConfirmedRequest::GetNamedVariableListAttributes(ObjectName::parse(&n)?))
            },
            13 => parse_delete(&t, limits),
            65 => Ok(ConfirmedRequest::ReadJournal(ReadJournal::parse(&t, limits)?)),
            71 => {
                let continue_after = t.children().next_opt_visible(tag_identifier())?;
                Ok(ConfirmedRequest::GetCapabilityList { continue_after })
            },
            72 => parse_file_open(&t, limits),
            73 => Ok(ConfirmedRequest::FileRead(t.integer_i32()?)),
            74 => Ok(ConfirmedRequest::FileClose(t.integer_i32()?)),
            76 => Ok(ConfirmedRequest::FileDelete(FileName::parse(&t, limits)?)),
            77 => parse_file_directory(&t, limits),
            _ => Ok(ConfirmedRequest::Other(t)),
        }
    }

    /// Encode this request into `e`.
    pub fn write(&self, e: &mut Encoder) -> (r: Result<(), Error>)
        ensures
            wrote(r, old(e)@, final(e)@, request_fault(self@), request_bytes(self@)),
    {
        match self {
            ConfirmedRequest::GetNameList { object_class, scope, continue_after } => {
                let body = body_name_list(*object_class, scope, *continue_after)?;
                e.constructed(Tag::context_constructed(SERVICE_GET_NAME_LIST), &body);
            },
            ConfirmedRequest::Status { extended_derivation } => {
                e.boolean(Tag::context(SERVICE_STATUS), *extended_derivation);
            },
            ConfirmedRequest::GetCapabilityList { continue_after } => {
                let mut body = Encoder::new();
                body.opt_visible_string(tag_identifier(), *continue_after)?;
                assert(body@ =~= request_contents(self@));
                e.constructed(Tag::context_constructed(SERVICE_GET_CAPABILITY_LIST), &body);
            },
            ConfirmedRequest::Identify => e.null(Tag::context(SERVICE_IDENTIFY)),
            ConfirmedRequest::Read { specification_with_result, access } => {
                let mut inner = Encoder::new();
                access.write(&mut inner)?;
                assert(inner@ =~= access_bytes(access@));
                let mut body = Encoder::new();
                body.flag(Tag::context(0), *specification_with_result, false);
                body.constructed(Tag::context_constructed(1), &inner);
                assert(body@ =~= request_contents(self@));
                e.constructed(Tag::context_constructed(SERVICE_READ), &body);
            },
            ConfirmedRequest::Write { access, values } => {
                let body = body_write(access, values)?;
                e.constructed(Tag::context_constructed(SERVICE_WRITE), &body);
            },
            ConfirmedRequest::GetNamedVariableListAttributes(name) => {
                let mut body = Encoder::new();
                name.write(&mut body)?;
                assert(body@ =~= request_contents(self@));
                e.constructed(Tag::context_constructed(SERVICE_GET_NVL_ATTRIBUTES), &body);
            },
            ConfirmedRequest::GetVariableAccessAttributes(name) => {
                let mut inner = Encoder::new();
                name.write(&mut inner)?;
                assert(inner@ =~= name_bytes(name@));
                let mut body = Encoder::new();
                body.constructed(Tag::context_constructed(0), &inner);
                assert(body@ =~= request_contents(self@));
                e.constructed(
                    Tag::context_constructed(SERVICE_GET_VARIABLE_ACCESS_ATTRIBUTES),
                    &body,
                );
            },
            ConfirmedRequest::DefineNamedVariableList { name, variables } => {
                let mut body = Encoder::new();
                name.write(&mut body)?;
                let list = write_list(variables.as_slice())?;
                body.constructed(Tag::context_constructed(0), &list);
                assert(body@ =~= request_contents(self@));
                e.constructed(Tag::context_constructed(SERVICE_DEFINE_NVL), &body);
            },
            ConfirmedRequest::DeleteNamedVariableList { scope, names, domain } => {
                let body = body_delete(*scope, names, *domain)?;
                e.constructed(Tag::context_constructed(SERVICE_DELETE_NVL), &body);
            },
            ConfirmedRequest::ReadJournal(r) => r.write(e)?,
            ConfirmedRequest::FileOpen { name, position } => {
                let mut body = Encoder::new();
                body.primitive(Tag::context_constructed(0), name.as_encoded());
                body.unsigned(Tag::context(1), *position as u64);
                assert(body@ =~= request_contents(self@));
                e.constructed(Tag::context_constructed(SERVICE_FILE_OPEN), &body);
            },
            ConfirmedRequest::FileRead(id) => {
                e.integer(Tag::context(SERVICE_FILE_READ), *id as i64);
            },
            ConfirmedRequest::FileClose(id) => {
                e.integer(Tag::context(SERVICE_FILE_CLOSE), *id as i64);
            },
            ConfirmedRequest::FileDelete(name) => {
                e.primitive(Tag::context_constructed(SERVICE_FILE_DELETE), name.as_encoded());
            },
            ConfirmedRequest::FileDirectory { specification, continue_after } => {
                let mut body = Encoder::new();
                if let Some(n) = specification {
                    body.primitive(Tag::context_constructed(0), n.as_encoded());
                }
                if let Some(n) = continue_after {
                    body.primitive(Tag::context_constructed(1), n.as_encoded());
                }
                assert(body@ =~= request_contents(self@));
                e.constructed(Tag::context_constructed(SERVICE_FILE_DIRECTORY), &body);
            },
            ConfirmedRequest::Other(t) => e.primitive(t.tag, t.value),
        }
        Ok(())
    }
}

// ---- laws ------------------------------------------------------------------------------

/// Whether a decoder with these limits takes a request for the same service.
pub open spec fn request_fits(m: ConfirmedRequestModel, limits: Limits) -> bool {
    match m {
        ConfirmedRequestModel::GetNameList { scope, .. } => scope_fits(scope),
        ConfirmedRequestModel::Read { access, .. } => access_fits(access),
        ConfirmedRequestModel::Write { access, values } => access_fits(access) && list_fits::<
            Tlv<'static>,
        >(values, limits, members_bound(limits)),
        ConfirmedRequestModel::DefineNamedVariableList { variables, .. } => list_fits::<
            VariableSpecification<'static>,
        >(variables, limits, members_bound(limits)),
        ConfirmedRequestModel::DeleteNamedVariableList { names, .. } => list_fits::<
            ObjectName<'static>,
        >(names, limits, items_bound(limits)),
        ConfirmedRequestModel::ReadJournal(r) => read_journal_fits(r, limits),
        ConfirmedRequestModel::FileOpen { name, .. } => file_name_fits(name, limits),
        ConfirmedRequestModel::FileDelete(name) => file_name_fits(name, limits),
        ConfirmedRequestModel::FileDirectory { specification, continue_after } => {
            &&& specification matches Some(n) ==> file_name_fits(n, limits)
            &&& continue_after matches Some(n) ==> file_name_fits(n, limits)
        },
        ConfirmedRequestModel::Other(t) => t.tag.class == Class::Context && !known_service(
            t.tag.number,
        ),
        _ => true,
    }
}

/// Whether two requests differ at most in where kept elements stood.
pub open spec fn same_request(a: ConfirmedRequestModel, b: ConfirmedRequestModel) -> bool {
    match (a, b) {
        (
            ConfirmedRequestModel::GetNameList {
                object_class: k1,
                scope: s1,
                continue_after: a1,
            },
            ConfirmedRequestModel::GetNameList {
                object_class: k2,
                scope: s2,
                continue_after: a2,
            },
        ) => k1 == k2 && same_scope(s1, s2) && a1 == a2,
        (
            ConfirmedRequestModel::Read { specification_with_result: w1, access: a1 },
            ConfirmedRequestModel::Read { specification_with_result: w2, access: a2 },
        ) => w1 == w2 && same_access(a1, a2),
        (
            ConfirmedRequestModel::Write { access: a1, values: v1 },
            ConfirmedRequestModel::Write { access: a2, values: v2 },
        ) => same_access(a1, a2) && same_list::<Tlv<'static>>(v1, v2),
        (
            ConfirmedRequestModel::DefineNamedVariableList { name: n1, variables: v1 },
            ConfirmedRequestModel::DefineNamedVariableList { name: n2, variables: v2 },
        ) => n1 == n2 && same_list::<VariableSpecification<'static>>(v1, v2),
        (ConfirmedRequestModel::Other(x), ConfirmedRequestModel::Other(y)) => same_element(x, y),
        _ => a == b,
    }
}

proof fn lemma_name_list_request(m: ConfirmedRequestModel, offset: usize)
    requires
        m is GetNameList,
        request_fault(m) is None,
        scope_fits(m->GetNameList_scope),
        request_contents(m).len() <= u64::MAX,
    ensures
        name_list_request(laws::element_at(request_tag(m), request_contents(m), offset)) matches Ok(
            x,
        ) && same_request(x, m),
{
    broadcast use laws::lemma_tlv_len;

    if let ConfirmedRequestModel::GetNameList { object_class, scope, continue_after } = m {
        let c = laws::element_at(request_tag(m), request_contents(m), offset).children();
        let after = opt_text_bytes(ctx(2), continue_after);
        let rest = tlv(ctx_cons(1), scope_bytes(scope)) + after;
        let v = sint_octets(object_class as int);
        laws::lemma_wrapped(ctx_cons(0), ctx(0), v, rest, c.offset);
        laws::lemma_integer_field(
            ctx(0),
            object_class,
            laws::element_at(ctx_cons(0), tlv(ctx(0), v), c.offset).value_offset,
        );
        let c1 = c.rest();
        laws::lemma_wrapped(
            ctx_cons(1),
            scope_tag(scope),
            scope_contents(scope),
            after,
            c1.offset,
        );
        lemma_scope_round_trip(
            scope,
            laws::element_at(ctx_cons(1), scope_bytes(scope), c1.offset).value_offset,
        );
        let c2 = c1.rest();
        assert(after + Seq::empty() =~= after);
        laws::lemma_opt_text(ctx(2), continue_after, Seq::empty(), c2.offset);
    }
}

proof fn lemma_read_request(m: ConfirmedRequestModel, offset: usize)
    requires
        m is Read,
        request_fault(m) is None,
        access_fits(m->Read_access),
        request_contents(m).len() <= u64::MAX,
    ensures
        read_request(laws::element_at(request_tag(m), request_contents(m), offset)) matches Ok(x)
            && same_request(x, m),
{
    broadcast use laws::lemma_tlv_len;

    if let ConfirmedRequestModel::Read { specification_with_result, access } = m {
        let c = laws::element_at(request_tag(m), request_contents(m), offset).children();
        let a = access_bytes(access);
        let rest = tlv(ctx_cons(1), a);
        assert(rest + Seq::empty() =~= rest);
        laws::lemma_lacks(ctx_cons(1), a, Seq::empty(), ctx(0));
        laws::lemma_flag(ctx(0), specification_with_result, false, rest, c.offset);
        let c1 = c.skip_optional(ctx(0));
        laws::lemma_wrapped(
            ctx_cons(1),
            access_tag(access),
            access_contents(access),
            Seq::empty(),
            c1.offset,
        );
        lemma_access_round_trip(
            access,
            laws::element_at(ctx_cons(1), a, c1.offset).value_offset,
        );
    }
}

proof fn lemma_write_request(m: ConfirmedRequestModel, limits: Limits, offset: usize)
    requires
        m is Write,
        request_fault(m) is None,
        request_fits(m, limits),
        request_contents(m).len() <= u64::MAX,
    ensures
        write_request(
            laws::element_at(request_tag(m), request_contents(m), offset),
            limits,
        ) matches Ok(x) && same_request(x, m),
{
    broadcast use laws::lemma_tlv_len;

    if let ConfirmedRequestModel::Write { access, values } = m {
        let c = laws::element_at(request_tag(m), request_contents(m), offset).children();
        let list = list_bytes::<Tlv<'static>>(values);
        let rest = tlv(ctx_cons(0), list);
        laws::lemma_first(access_tag(access), access_contents(access), rest, c.offset);
        lemma_access_round_trip(access, c.offset);
        let c1 = c.rest();
        laws::lemma_only(ctx_cons(0), list, c1.offset);
        lemma_no_fault_in_values(values, 0);
        lemma_list_round_trip::<Tlv<'static>>(
            values,
            limits,
            members_bound(limits),
            laws::element_at(ctx_cons(0), list, c1.offset).value_offset,
        );
    }
}

proof fn lemma_define_request(m: ConfirmedRequestModel, limits: Limits, offset: usize)
    requires
        m is DefineNamedVariableList,
        request_fault(m) is None,
        request_fits(m, limits),
        request_contents(m).len() <= u64::MAX,
    ensures
        define_request(
            laws::element_at(request_tag(m), request_contents(m), offset),
            limits,
        ) matches Ok(x) && same_request(x, m),
{
    broadcast use laws::lemma_tlv_len;

    if let ConfirmedRequestModel::DefineNamedVariableList { name, variables } = m {
        let c = laws::element_at(request_tag(m), request_contents(m), offset).children();
        let list = list_bytes::<VariableSpecification<'static>>(variables);
        let rest = tlv(ctx_cons(0), list);
        laws::lemma_first(name_tag(name), name_contents(name), rest, c.offset);
        lemma_name_round_trip(name, c.offset);
        let c1 = c.rest();
        laws::lemma_only(ctx_cons(0), list, c1.offset);
        lemma_list_round_trip::<VariableSpecification<'static>>(
            variables,
            limits,
            members_bound(limits),
            laws::element_at(ctx_cons(0), list, c1.offset).value_offset,
        );
    }
}

proof fn lemma_same_names(a: Seq<ObjectNameModel>, b: Seq<ObjectNameModel>)
    requires
        same_list::<ObjectName<'static>>(a, b),
    ensures
        a == b,
{
    assert forall|i: int| 0 <= i < a.len() implies a[i] == b[i] by {
        assert(<ObjectName<'static> as Element<'static>>::same(a[i], b[i]));
    }
    assert(a =~= b);
}

proof fn lemma_delete_request(m: ConfirmedRequestModel, limits: Limits, offset: usize)
    requires
        m is DeleteNamedVariableList,
        request_fault(m) is None,
        request_fits(m, limits),
        request_contents(m).len() <= u64::MAX,
    ensures
        delete_request(
            laws::element_at(request_tag(m), request_contents(m), offset),
            limits,
        ) == Ok::<ConfirmedRequestModel, Error>(m),
{
    broadcast use laws::lemma_tlv_len;

    if let ConfirmedRequestModel::DeleteNamedVariableList { scope, names, domain } = m {
        let c0 = laws::element_at(request_tag(m), request_contents(m), offset).children();
        let list = list_bytes::<ObjectName<'static>>(names);
        let last = opt_text_bytes(ctx(2), domain);
        let rest = names_bytes(names) + last;
        assert(last + Seq::empty() =~= last);
        if let Some(d) = domain {
            laws::lemma_lacks(ctx(2), octets_of(d), Seq::empty(), ctx_cons(1));
            laws::lemma_lacks(ctx(2), octets_of(d), Seq::empty(), ctx(0));
        }
        if names.len() > 0 {
            laws::lemma_lacks(ctx_cons(1), list, last, ctx(0));
        } else {
            assert(rest =~= last);
        }
        laws::lemma_opt_integer(ctx(0), written_scope(scope), rest, c0.offset);
        let c1 = c0.skip_optional(ctx(0));
        if names.len() > 0 {
            laws::lemma_present(ctx_cons(1), list, last, c1.offset);
            let at = laws::element_at(ctx_cons(1), list, c1.offset).value_offset;
            lemma_list_round_trip::<ObjectName<'static>>(names, limits, items_bound(limits), at);
            let got = listed::<ObjectName<'static>>(
                CursorModel { bytes: list, offset: at },
                limits,
                items_bound(limits),
                Seq::empty(),
            );
            lemma_same_names(got->Ok_0, names);
        } else {
            laws::lemma_absent(last, ctx_cons(1), c1.offset);
            assert(names =~= Seq::<ObjectNameModel>::empty());
        }
        let c2 = c1.skip_optional(ctx_cons(1));
        laws::lemma_opt_text(ctx(2), domain, Seq::empty(), c2.offset);
    }
}

proof fn lemma_opt_file_name(
    tag: Tag,
    name: Option<Seq<u8>>,
    r: Seq<u8>,
    limits: Limits,
    offset: usize,
)
    requires
        name matches Some(n) ==> file_name_fits(n, limits),
        opt_file_name_bytes(tag, name).len() <= u64::MAX,
        name is None ==> laws::lacks(r, tag),
    ensures
        ({
            let c = CursorModel { bytes: opt_file_name_bytes(tag, name) + r, offset };
            opt_file_name(c, tag, limits) == Ok::<Option<Seq<u8>>, Error>(name) && c.skip_optional(
                tag,
            ).bytes == r
        }),
{
    broadcast use laws::lemma_tlv_len;

    match name {
        Some(n) => {
            laws::lemma_present(tag, n, r, offset);
            lemma_file_name_round_trip(n, limits, tag, offset);
        },
        None => {
            assert(opt_file_name_bytes(tag, name) + r =~= r);
            laws::lemma_absent(r, tag, offset);
        },
    }
}

proof fn lemma_file_requests(m: ConfirmedRequestModel, limits: Limits, offset: usize)
    requires
        m is FileOpen || m is FileDirectory,
        request_fits(m, limits),
        request_contents(m).len() <= u64::MAX,
    ensures
        request_of(
            laws::element_at(request_tag(m), request_contents(m), offset),
            limits,
        ) == Ok::<ConfirmedRequestModel, Error>(m),
{
    broadcast use laws::lemma_tlv_len;

    let c = laws::element_at(request_tag(m), request_contents(m), offset).children();
    match m {
        ConfirmedRequestModel::FileOpen { name, position } => {
            let last = tlv(ctx(1), sint_octets(position as int));
            laws::lemma_first(ctx_cons(0), name, last, c.offset);
            lemma_file_name_round_trip(name, limits, ctx_cons(0), c.offset);
            assert(last + Seq::empty() =~= last);
            laws::lemma_unsigned32(ctx(1), position, Seq::empty(), c.rest().offset);
        },
        ConfirmedRequestModel::FileDirectory { specification, continue_after } => {
            let last = opt_file_name_bytes(ctx_cons(1), continue_after);
            assert(last + Seq::empty() =~= last);
            if let Some(n) = continue_after {
                laws::lemma_lacks(ctx_cons(1), n, Seq::empty(), ctx_cons(0));
            }
            lemma_opt_file_name(ctx_cons(0), specification, last, limits, c.offset);
            let c1 = c.skip_optional(ctx_cons(0));
            lemma_opt_file_name(ctx_cons(1), continue_after, Seq::empty(), limits, c1.offset);
        },
        _ => {},
    }
}

/// A request that has an encoding and stays within the limits reads back as it was.
pub proof fn lemma_request_round_trip(m: ConfirmedRequestModel, limits: Limits, offset: usize)
    requires
        request_fault(m) is None,
        request_fits(m, limits),
        request_contents(m).len() <= u64::MAX,
    ensures
        request_of(
            laws::element_at(request_tag(m), request_contents(m), offset),
            limits,
        ) matches Ok(x) && same_request(x, m),
{
    broadcast use laws::lemma_tlv_len;

    let t = laws::element_at(request_tag(m), request_contents(m), offset);
    let c = t.children();
    match m {
        ConfirmedRequestModel::GetNameList { .. } => lemma_name_list_request(m, offset),
        ConfirmedRequestModel::Read { .. } => lemma_read_request(m, offset),
        ConfirmedRequestModel::Write { .. } => lemma_write_request(m, limits, offset),
        ConfirmedRequestModel::DefineNamedVariableList { .. } => lemma_define_request(
            m,
            limits,
            offset,
        ),
        ConfirmedRequestModel::DeleteNamedVariableList { .. } => lemma_delete_request(
            m,
            limits,
            offset,
        ),
        ConfirmedRequestModel::GetCapabilityList { continue_after } => {
            let b = opt_text_bytes(identifier_tag(), continue_after);
            assert(b + Seq::empty() =~= b);
            laws::lemma_opt_text(identifier_tag(), continue_after, Seq::empty(), c.offset);
        },
        ConfirmedRequestModel::GetNamedVariableListAttributes(n) => {
            laws::lemma_only(name_tag(n), name_contents(n), c.offset);
            lemma_name_round_trip(n, c.offset);
        },
        ConfirmedRequestModel::GetVariableAccessAttributes(n) => {
            let b = tlv(ctx_cons(0), name_bytes(n));
            assert(b + Seq::empty() =~= b);
            laws::lemma_wrapped(
                ctx_cons(0),
                name_tag(n),
                name_contents(n),
                Seq::empty(),
                c.offset,
            );
            lemma_name_round_trip(
                n,
                laws::element_at(ctx_cons(0), name_bytes(n), c.offset).value_offset,
            );
        },
        ConfirmedRequestModel::ReadJournal(r) => lemma_read_journal_round_trip(
            r,
            limits,
            request_tag(m),
            offset,
        ),
        ConfirmedRequestModel::FileRead(id) => laws::lemma_integer_field(
            ctx(73),
            id as i64,
            offset,
        ),
        ConfirmedRequestModel::FileClose(id) => laws::lemma_integer_field(
            ctx(74),
            id as i64,
            offset,
        ),
        ConfirmedRequestModel::FileDelete(name) => lemma_file_name_round_trip(
            name,
            limits,
            ctx_cons(76),
            offset,
        ),
        ConfirmedRequestModel::FileOpen { .. } => lemma_file_requests(m, limits, offset),
        ConfirmedRequestModel::FileDirectory { .. } => lemma_file_requests(m, limits, offset),
        _ => {},
    }
}

proof fn lemma_inner_name_decoded(t: TlvModel)
    ensures
        inner_name(t) matches Ok(n) ==> name_fault(n) is None,
{
    if let Ok(n) = t.children().first() {
        lemma_name_decoded(n);
    }
}

proof fn lemma_list_requests_decoded(t: TlvModel, limits: Limits)
    ensures
        define_request(t, limits) matches Ok(m) ==> request_fault(m) is None && request_fits(
            m,
            limits,
        ),
        delete_request(t, limits) matches Ok(m) ==> request_fault(m) is None && request_fits(
            m,
            limits,
        ),
{
    let c = t.children();
    lemma_inner_name_decoded(t);
    if let Ok(list) = c.rest().tagged(ctx_cons(0)) {
        lemma_list_decoded::<VariableSpecification<'static>>(
            list.children(),
            limits,
            members_bound(limits),
        );
    }
    let c1 = c.skip_optional(ctx(0));
    match c1.optional(ctx_cons(1)) {
        Ok(Some(list)) => lemma_list_decoded::<ObjectName<'static>>(
            list.children(),
            limits,
            items_bound(limits),
        ),
        _ => lemma_faultless::<ObjectName<'static>>(Seq::empty(), 0),
    }
    laws::lemma_opt_visible_decoded(c1.skip_optional(ctx_cons(1)), ctx(2));
}

proof fn lemma_file_requests_decoded(t: TlvModel, limits: Limits)
    ensures
        file_open_request(t, limits) matches Ok(m) ==> request_fault(m) is None && request_fits(
            m,
            limits,
        ),
        file_directory_request(t, limits) matches Ok(m) ==> request_fault(m) is None
            && request_fits(m, limits),
{
    let c = t.children();
    if let Ok(n) = c.tagged(ctx_cons(0)) {
        lemma_file_name_decoded(n, limits);
    }
    if let Ok(Some(n)) = c.optional(ctx_cons(0)) {
        lemma_file_name_decoded(n, limits);
    }
    if let Ok(Some(n)) = c.skip_optional(ctx_cons(0)).optional(ctx_cons(1)) {
        lemma_file_name_decoded(n, limits);
    }
}

/// A request that was decoded has an encoding, and reads back.
pub proof fn lemma_request_decoded(t: TlvModel, limits: Limits)
    ensures
        request_of(t, limits) matches Ok(m) ==> request_fault(m) is None && request_fits(m, limits),
{
    let c = t.children();
    if t.tag.number == 1 {
        if let Ok(s) = c.rest().wrapped(ctx_cons(1)) {
            lemma_scope_decoded(s);
        }
        laws::lemma_opt_visible_decoded(c.rest().rest(), ctx(2));
    } else if t.tag.number == 4 {
        if let Ok(a) = c.skip_optional(ctx(0)).wrapped(ctx_cons(1)) {
            lemma_access_decoded(a);
        }
    } else if t.tag.number == 5 {
        if let Ok(a) = c.first() {
            lemma_access_decoded(a);
        }
        if let Ok(list) = c.rest().tagged(ctx_cons(0)) {
            lemma_list_decoded::<Tlv<'static>>(list.children(), limits, members_bound(limits));
        }
    } else if t.tag.number == 6 {
        if let Ok(n) = c.wrapped(ctx_cons(0)) {
            lemma_name_decoded(n);
        }
    } else if t.tag.number == 12 {
        lemma_inner_name_decoded(t);
    } else if t.tag.number == 65 {
        lemma_read_journal_decoded(t, limits);
    } else if t.tag.number == 71 {
        laws::lemma_opt_visible_decoded(c, identifier_tag());
    } else if t.tag.number == 76 {
        lemma_file_name_decoded(t, limits);
    } else {
        lemma_list_requests_decoded(t, limits);
        lemma_file_requests_decoded(t, limits);
    }
}

/// Requests that differ only in where elements stood have one encoding.
pub proof fn lemma_same_request_octets(a: ConfirmedRequestModel, b: ConfirmedRequestModel)
    requires
        same_request(a, b),
    ensures
        request_bytes(a) == request_bytes(b),
{
    match (a, b) {
        (
            ConfirmedRequestModel::Read { access: x, .. },
            ConfirmedRequestModel::Read { access: y, .. },
        ) => lemma_same_access_octets(x, y),
        (
            ConfirmedRequestModel::Write { access: x, values: v },
            ConfirmedRequestModel::Write { access: y, values: w },
        ) => {
            lemma_same_access_octets(x, y);
            lemma_same_octets::<Tlv<'static>>(v, w);
        },
        (
            ConfirmedRequestModel::DefineNamedVariableList { variables: v, .. },
            ConfirmedRequestModel::DefineNamedVariableList { variables: w, .. },
        ) => lemma_same_octets::<VariableSpecification<'static>>(v, w),
        _ => {},
    }
}

} // verus!
