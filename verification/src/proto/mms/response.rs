//! Confirmed service responses.

use vstd::prelude::*;
use vstd::utf8::*;
use crate::ber::laws;
use crate::ber::list::{
    lemma_list_decoded, lemma_list_round_trip, lemma_same_octets, list_bytes, list_fault,
    list_fault_from, list_fits, listed, read_list, same_list, views, write_list, Element,
};
use crate::ber::{
    bad, bool_octets, ctx, ctx_cons, first_fault, flag_bytes, octets_of, opt_bits_bytes,
    opt_bits_fault, opt_text_fault, opt_view, sint_octets, text_fault, tlv, univ, wrote, Class,
    Cursor, CursorModel, Encoder, Tag, Tlv, TlvModel, UNIVERSAL_SEQUENCE,
};
use crate::common::{agrees, agrees_opt, DecodeReason, Error, Limits};
use crate::proto::mms::file::{
    attributes_contents, attributes_of, directory_cursor, directory_entries,
    lemma_attributes_decoded, lemma_attributes_round_trip, DirectoryEntry, DirectoryEntryModel,
    FileAttributes, FileAttributesModel,
};
use crate::proto::mms::journal::{JournalEntry, JournalEntryModel};
use crate::proto::mms::names::same_element;
use crate::proto::mms::request::{
    known_service, SERVICE_DEFINE_NVL, SERVICE_DELETE_NVL, SERVICE_FILE_CLOSE, SERVICE_FILE_DELETE,
    SERVICE_FILE_DIRECTORY, SERVICE_FILE_OPEN, SERVICE_FILE_READ, SERVICE_GET_CAPABILITY_LIST,
    SERVICE_GET_NAME_LIST, SERVICE_GET_NVL_ATTRIBUTES, SERVICE_GET_VARIABLE_ACCESS_ATTRIBUTES,
    SERVICE_IDENTIFY, SERVICE_READ, SERVICE_STATUS, SERVICE_WRITE,
};
use crate::proto::mms::read_journal::SERVICE_READ_JOURNAL;
use crate::proto::mms::typespec::{
    lemma_type_decoded, lemma_type_round_trip, type_bytes, type_contents, type_fault, type_fits,
    type_of, type_tag, TypeSpec, TypeSpecModel,
};
use crate::proto::mms::variables::{
    access_bytes, access_contents, access_fault, access_fits, access_of, access_tag, bound_items,
    bound_members, items_bound, lemma_access_decoded, lemma_access_round_trip,
    lemma_same_access_octets, members_bound, parse_variable_list, same_access, variable_list_of,
    AccessResult, AccessResultModel, VariableAccess, VariableAccessModel, VariableSpecification,
    VariableSpecificationModel, WriteResult,
};

verus! {

/// A confirmed service response.
#[derive(Clone, Debug, PartialEq)]
pub enum ConfirmedResponse<'a> {
    /// `status [0]`.
    Status {
        /// `vmdLogicalStatus`.
        logical: i64,
        /// `vmdPhysicalStatus`.
        physical: i64,
        /// `localDetail`, a bit string the vendor defines.
        local_detail: Option<(u8, &'a [u8])>,
    },
    /// `getCapabilityList [71]`.
    GetCapabilityList {
        /// What the VMD says it can do.
        capabilities: Vec<&'a str>,
        /// Whether the server has more to give.
        more_follows: bool,
    },
    /// `getNameList [1]`.
    GetNameList {
        /// The names.
        identifiers: Vec<&'a str>,
        /// Whether the server has more to give.
        more_follows: bool,
    },
    /// `identify [2]`.
    Identify {
        /// Vendor.
        vendor: &'a str,
        /// Model.
        model: &'a str,
        /// Revision.
        revision: &'a str,
    },
    /// `read [4]`.
    Read {
        /// What the server says it returned, when the request asked.
        access: Option<VariableAccess<'a>>,
        /// One result per variable.
        results: Vec<AccessResult<'a>>,
    },
    /// `write [5]`.
    Write(Vec<WriteResult>),
    /// `getNamedVariableListAttributes [12]`.
    GetNamedVariableListAttributes {
        /// Whether the client may delete this list.
        deletable: bool,
        /// The members.
        variables: Vec<VariableSpecification<'a>>,
    },
    /// `getVariableAccessAttributes [6]`.
    GetVariableAccessAttributes {
        /// Whether the client may delete this variable.
        deletable: bool,
        /// What the variable is.
        type_spec: TypeSpec,
    },
    /// `defineNamedVariableList [11]`: the data set was created.
    DefineNamedVariableList,
    /// `deleteNamedVariableList [13]`.
    DeleteNamedVariableList {
        /// How many lists matched the scope.
        matched: u32,
        /// How many of them were deleted.
        deleted: u32,
    },
    /// `readJournal [65]`.
    ReadJournal {
        /// The entries.
        entries: Vec<JournalEntry<'a>>,
        /// Whether the server has more to give.
        more_follows: bool,
    },
    /// `fileOpen [72]`.
    FileOpen {
        /// The handle every subsequent read and the close must carry.
        frsm_id: i32,
        /// Size and modification time.
        attributes: FileAttributes<'a>,
    },
    /// `fileRead [73]`.
    FileRead {
        /// This chunk.
        data: &'a [u8],
        /// Whether more chunks follow.
        more_follows: bool,
    },
    /// `fileClose [74]`.
    FileClose,
    /// `fileDelete [76]`.
    FileDelete,
    /// `fileDirectory [77]`.
    FileDirectory {
        /// The files.
        entries: Vec<DirectoryEntry<'a>>,
        /// Whether the server has more to give.
        more_follows: bool,
    },
    /// Any other service, kept whole.
    Other(Tlv<'a>),
}

/// What a [`ConfirmedResponse`] stands for.
pub enum ConfirmedResponseModel {
    Status { logical: i64, physical: i64, local_detail: Option<(u8, Seq<u8>)> },
    GetCapabilityList { capabilities: Seq<Seq<char>>, more_follows: bool },
    GetNameList { identifiers: Seq<Seq<char>>, more_follows: bool },
    Identify { vendor: Seq<char>, model: Seq<char>, revision: Seq<char> },
    Read { access: Option<VariableAccessModel>, results: Seq<AccessResultModel> },
    Write(Seq<WriteResult>),
    GetNamedVariableListAttributes {
        deletable: bool,
        variables: Seq<VariableSpecificationModel>,
    },
    GetVariableAccessAttributes { deletable: bool, type_spec: TypeSpecModel },
    DefineNamedVariableList,
    DeleteNamedVariableList { matched: u32, deleted: u32 },
    ReadJournal { entries: Seq<JournalEntryModel>, more_follows: bool },
    FileOpen { frsm_id: i32, attributes: FileAttributesModel },
    FileRead { data: Seq<u8>, more_follows: bool },
    FileClose,
    FileDelete,
    FileDirectory { entries: Seq<DirectoryEntryModel>, more_follows: bool },
    Other(TlvModel),
}

impl<'a> View for ConfirmedResponse<'a> {
    type V = ConfirmedResponseModel;

    open spec fn view(&self) -> ConfirmedResponseModel {
        match *self {
            ConfirmedResponse::Status {
                logical,
                physical,
                local_detail,
            } => ConfirmedResponseModel::Status {
                logical,
                physical,
                local_detail: opt_view(local_detail),
            },
            ConfirmedResponse::GetCapabilityList {
                capabilities,
                more_follows,
            } => ConfirmedResponseModel::GetCapabilityList {
                capabilities: views(capabilities@),
                more_follows,
            },
            ConfirmedResponse::GetNameList {
                identifiers,
                more_follows,
            } => ConfirmedResponseModel::GetNameList {
                identifiers: views(identifiers@),
                more_follows,
            },
            ConfirmedResponse::Identify {
                vendor,
                model,
                revision,
            } => ConfirmedResponseModel::Identify {
                vendor: vendor@,
                model: model@,
                revision: revision@,
            },
            ConfirmedResponse::Read { access, results } => ConfirmedResponseModel::Read {
                access: opt_view(access),
                results: views(results@),
            },
            ConfirmedResponse::Write(results) => ConfirmedResponseModel::Write(views(results@)),
            ConfirmedResponse::GetNamedVariableListAttributes {
                deletable,
                variables,
            } => ConfirmedResponseModel::GetNamedVariableListAttributes {
                deletable,
                variables: views(variables@),
            },
            ConfirmedResponse::GetVariableAccessAttributes {
                deletable,
                type_spec,
            } => ConfirmedResponseModel::GetVariableAccessAttributes {
                deletable,
                type_spec: type_spec@,
            },
            ConfirmedResponse::DefineNamedVariableList => {
                ConfirmedResponseModel::DefineNamedVariableList
            },
            ConfirmedResponse::DeleteNamedVariableList {
                matched,
                deleted,
            } => ConfirmedResponseModel::DeleteNamedVariableList { matched, deleted },
            ConfirmedResponse::ReadJournal {
                entries,
                more_follows,
            } => ConfirmedResponseModel::ReadJournal { entries: views(entries@), more_follows },
            ConfirmedResponse::FileOpen {
                frsm_id,
                attributes,
            } => ConfirmedResponseModel::FileOpen { frsm_id, attributes: attributes@ },
            ConfirmedResponse::FileRead { data, more_follows } => ConfirmedResponseModel::FileRead {
                data: data@,
                more_follows,
            },
            ConfirmedResponse::FileClose => ConfirmedResponseModel::FileClose,
            ConfirmedResponse::FileDelete => ConfirmedResponseModel::FileDelete,
            ConfirmedResponse::FileDirectory {
                entries,
                more_follows,
            } => ConfirmedResponseModel::FileDirectory { entries: views(entries@), more_follows },
            ConfirmedResponse::Other(t) => ConfirmedResponseModel::Other(t@),
        }
    }
}

// ---- decoding --------------------------------------------------------------------------

/// A `status` response.
pub open spec fn status_response(t: TlvModel) -> Result<ConfirmedResponseModel, Error> {
    let c = t.children();
    match c.integer(ctx(0)) {
        Err(e) => Err(e),
        Ok(logical) => match c.rest().integer(ctx(1)) {
            Err(e) => Err(e),
            Ok(physical) => match c.rest().rest().opt_bits(ctx(2)) {
                Err(e) => Err(e),
                Ok(local_detail) => Ok(
                    ConfirmedResponseModel::Status { logical, physical, local_detail },
                ),
            },
        },
    }
}

/// A list of names under `[0]`, and `moreFollows [1]`, which is true where it is absent.
pub open spec fn names_and_more(t: TlvModel, limits: Limits) -> Result<
    (Seq<Seq<char>>, bool),
    Error,
> {
    let c = t.children();
    match c.tagged(ctx_cons(0)) {
        Err(e) => Err(e),
        Ok(list) => match listed::<&'static str>(
            list.children(),
            limits,
            items_bound(limits),
            Seq::empty(),
        ) {
            Err(e) => Err(e),
            Ok(names) => match c.rest().flag(ctx(1), true) {
                Err(e) => Err(e),
                Ok(more) => Ok((names, more)),
            },
        },
    }
}

/// An `identify` response.
pub open spec fn identify_response(t: TlvModel) -> Result<ConfirmedResponseModel, Error> {
    let c = t.children();
    match c.visible(ctx(0)) {
        Err(e) => Err(e),
        Ok(vendor) => match c.rest().visible(ctx(1)) {
            Err(e) => Err(e),
            Ok(model) => match c.rest().rest().visible(ctx(2)) {
                Err(e) => Err(e),
                Ok(revision) => Ok(
                    ConfirmedResponseModel::Identify { vendor, model, revision },
                ),
            },
        },
    }
}

/// The access specification of a read response, if it is there.
pub open spec fn opt_access(c: CursorModel) -> Result<Option<VariableAccessModel>, Error> {
    match c.optional(ctx_cons(0)) {
        Err(e) => Err(e),
        Ok(None) => Ok(None),
        Ok(Some(a)) => match a.children().first() {
            Err(e) => Err(e),
            Ok(a) => match access_of(a) {
                Err(e) => Err(e),
                Ok(access) => Ok(Some(access)),
            },
        },
    }
}

/// The access results inside an element.
pub open spec fn access_results_of(t: TlvModel, limits: Limits) -> Result<
    Seq<AccessResultModel>,
    Error,
> {
    listed::<AccessResult<'static>>(t.children(), limits, members_bound(limits), Seq::empty())
}

/// A `read` response.
pub open spec fn read_response(t: TlvModel, limits: Limits) -> Result<
    ConfirmedResponseModel,
    Error,
> {
    let c = t.children();
    match opt_access(c) {
        Err(e) => Err(e),
        Ok(access) => match c.skip_optional(ctx_cons(0)).tagged(ctx_cons(1)) {
            Err(e) => Err(e),
            Ok(list) => match access_results_of(list, limits) {
                Err(e) => Err(e),
                Ok(results) => Ok(ConfirmedResponseModel::Read { access, results }),
            },
        },
    }
}

/// A `getNamedVariableListAttributes` response.
pub open spec fn list_attributes_response(t: TlvModel, limits: Limits) -> Result<
    ConfirmedResponseModel,
    Error,
> {
    let c = t.children();
    match c.flag(ctx(0), false) {
        Err(e) => Err(e),
        Ok(deletable) => match c.skip_optional(ctx(0)).tagged(ctx_cons(1)) {
            Err(e) => Err(e),
            Ok(list) => match variable_list_of(list, limits) {
                Err(e) => Err(e),
                Ok(variables) => Ok(
                    ConfirmedResponseModel::GetNamedVariableListAttributes {
                        deletable,
                        variables,
                    },
                ),
            },
        },
    }
}

/// A `getVariableAccessAttributes` response. An `address [1]` is skipped by its tag.
pub open spec fn type_response(t: TlvModel, limits: Limits) -> Result<
    ConfirmedResponseModel,
    Error,
> {
    let c0 = t.children();
    let c1 = c0.skip_optional(ctx(0));
    let c2 = c1.skip_optional(ctx_cons(1));
    match c0.flag(ctx(0), false) {
        Err(e) => Err(e),
        Ok(deletable) => match c1.optional(ctx_cons(1)) {
            Err(e) => Err(e),
            Ok(_) => match c2.wrapped(ctx_cons(2)) {
                Err(e) => Err(e),
                Ok(s) => match type_of(s, limits, 0) {
                    Err(e) => Err(e),
                    Ok(type_spec) => Ok(
                        ConfirmedResponseModel::GetVariableAccessAttributes {
                            deletable,
                            type_spec,
                        },
                    ),
                },
            },
        },
    }
}

/// A `deleteNamedVariableList` response.
pub open spec fn delete_response(t: TlvModel) -> Result<ConfirmedResponseModel, Error> {
    let c = t.children();
    match c.unsigned32(ctx(0)) {
        Err(e) => Err(e),
        Ok(matched) => match c.rest().unsigned32(ctx(1)) {
            Err(e) => Err(e),
            Ok(deleted) => Ok(
                ConfirmedResponseModel::DeleteNamedVariableList { matched, deleted },
            ),
        },
    }
}

/// A `readJournal` response. `moreFollows` is false where it is absent.
pub open spec fn journal_response(t: TlvModel, limits: Limits) -> Result<
    ConfirmedResponseModel,
    Error,
> {
    let c = t.children();
    match c.tagged(ctx_cons(0)) {
        Err(e) => Err(e),
        Ok(list) => match listed::<JournalEntry<'static>>(
            list.children(),
            limits,
            items_bound(limits),
            Seq::empty(),
        ) {
            Err(e) => Err(e),
            Ok(entries) => match c.rest().flag(ctx(1), false) {
                Err(e) => Err(e),
                Ok(more_follows) => Ok(
                    ConfirmedResponseModel::ReadJournal { entries, more_follows },
                ),
            },
        },
    }
}

/// A `fileOpen` response.
pub open spec fn file_open_response(t: TlvModel) -> Result<ConfirmedResponseModel, Error> {
    let c = t.children();
    match c.tagged(ctx(0)) {
        Err(e) => Err(e),
        Ok(id) => match id.integer32() {
            Err(e) => Err(e),
            Ok(frsm_id) => match c.rest().tagged(ctx_cons(1)) {
                Err(e) => Err(e),
                Ok(a) => match attributes_of(a) {
                    Err(e) => Err(e),
                    Ok(attributes) => Ok(
                        ConfirmedResponseModel::FileOpen { frsm_id, attributes },
                    ),
                },
            },
        },
    }
}

/// A `fileRead` response. `moreFollows` is true where it is absent.
pub open spec fn file_read_response(t: TlvModel, limits: Limits) -> Result<
    ConfirmedResponseModel,
    Error,
> {
    let c = t.children();
    match c.tagged(ctx(0)) {
        Err(e) => Err(e),
        Ok(d) => if d.value.len() > limits.max_primitive_len {
            Err(
                Error::LimitExceeded { limit: "max_primitive_len", value: d.value.len() as usize },
            )
        } else {
            match c.rest().flag(ctx(1), true) {
                Err(e) => Err(e),
                Ok(more_follows) => Ok(
                    ConfirmedResponseModel::FileRead { data: d.value, more_follows },
                ),
            }
        },
    }
}

/// A `fileDirectory` response. `moreFollows` is false where it is absent.
pub open spec fn directory_response(t: TlvModel, limits: Limits) -> Result<
    ConfirmedResponseModel,
    Error,
> {
    let c = t.children();
    match c.tagged(ctx_cons(0)) {
        Err(e) => Err(e),
        Ok(list) => match listed::<DirectoryEntry<'static>>(
            directory_cursor(list),
            limits,
            items_bound(limits),
            Seq::empty(),
        ) {
            Err(e) => Err(e),
            Ok(entries) => match c.rest().flag(ctx(1), false) {
                Err(e) => Err(e),
                Ok(more_follows) => Ok(
                    ConfirmedResponseModel::FileDirectory { entries, more_follows },
                ),
            },
        },
    }
}

/// The response an element holds, by its context tag number.
pub open spec fn response_of(t: TlvModel, limits: Limits) -> Result<ConfirmedResponseModel, Error> {
    if t.tag.class != Class::Context {
        bad(DecodeReason::UnexpectedTag, t.offset)
    } else {
        match t.tag.number {
            0 => status_response(t),
            1 => match names_and_more(t, limits) {
                Err(e) => Err(e),
                Ok((identifiers, more_follows)) => Ok(
                    ConfirmedResponseModel::GetNameList { identifiers, more_follows },
                ),
            },
            2 => identify_response(t),
            4 => read_response(t, limits),
            5 => match listed::<WriteResult>(
                t.children(),
                limits,
                members_bound(limits),
                Seq::empty(),
            ) {
                Err(e) => Err(e),
                Ok(results) => Ok(ConfirmedResponseModel::Write(results)),
            },
            6 => type_response(t, limits),
            11 => Ok(ConfirmedResponseModel::DefineNamedVariableList),
            12 => list_attributes_response(t, limits),
            13 => delete_response(t),
            65 => journal_response(t, limits),
            71 => match names_and_more(t, limits) {
                Err(e) => Err(e),
                Ok((capabilities, more_follows)) => Ok(
                    ConfirmedResponseModel::GetCapabilityList { capabilities, more_follows },
                ),
            },
            72 => file_open_response(t),
            73 => file_read_response(t, limits),
            74 => Ok(ConfirmedResponseModel::FileClose),
            76 => Ok(ConfirmedResponseModel::FileDelete),
            77 => directory_response(t, limits),
            _ => Ok(ConfirmedResponseModel::Other(t)),
        }
    }
}

fn parse_status<'a>(t: &Tlv<'a>) -> (r: Result<ConfirmedResponse<'a>, Error>)
    ensures
        agrees(r, status_response(t@)),
{
    let mut c = t.children();
    let logical: i64 = c.next_tag(Tag::context(0))?.integer_i64()?;
    let physical: i64 = c.next_tag(Tag::context(1))?.integer_i64()?;
    let local_detail = c.next_opt_bits(Tag::context(2))?;
    Ok(ConfirmedResponse::Status { logical, physical, local_detail })
}

fn parse_names<'a>(t: &Tlv<'a>, limits: &Limits) -> (r: Result<(Vec<&'a str>, bool), Error>)
    ensures
        match r {
            Ok((v, more)) => names_and_more(t@, *limits) == Ok::<(Seq<Seq<char>>, bool), Error>(
                (views(v@), more),
            ),
            Err(e) => names_and_more(t@, *limits) == Err::<(Seq<Seq<char>>, bool), Error>(e),
        },
{
    let mut c = t.children();
    let list = c.next_tag(Tag::context_constructed(0))?;
    let names = read_list::<&'a str>(list.children(), limits, bound_items(limits))?;
    let more = c.next_flag(Tag::context(1), true)?;
    Ok((names, more))
}

fn parse_identify<'a>(t: &Tlv<'a>) -> (r: Result<ConfirmedResponse<'a>, Error>)
    ensures
        agrees(r, identify_response(t@)),
{
    let mut c = t.children();
    let vendor = c.next_tag(Tag::context(0))?.visible_string()?;
    let model = c.next_tag(Tag::context(1))?.visible_string()?;
    let revision = c.next_tag(Tag::context(2))?.visible_string()?;
    Ok(ConfirmedResponse::Identify { vendor, model, revision })
}

fn next_access<'a>(c: &mut Cursor<'a>) -> (r: Result<Option<VariableAccess<'a>>, Error>)
    ensures
        agrees_opt(r, opt_access(old(c)@)),
        final(c)@ == old(c)@.skip_optional(ctx_cons(0)),
{
    match c.next_if_tag(Tag::context_constructed(0))? {
        Some(a) => {
            let a = a.children().next_required()?;
            Ok(Some(VariableAccess::parse(&a)?))
        },
        None => Ok(None),
    }
}

/// Decode the access results inside an element.
pub fn parse_access_results<'a>(t: &Tlv<'a>, limits: &Limits) -> (r: Result<
    Vec<AccessResult<'a>>,
    Error,
>)
    ensures
        crate::ber::list::agrees_list(r, access_results_of(t@, *limits)),
{
    read_list::<AccessResult<'a>>(t.children(), limits, bound_members(limits))
}

fn parse_read<'a>(t: &Tlv<'a>, limits: &Limits) -> (r: Result<ConfirmedResponse<'a>, Error>)
    ensures
        agrees(r, read_response(t@, *limits)),
{
    let mut c = t.children();
    let access = next_access(&mut c)?;
    let list = c.next_tag(Tag::context_constructed(1))?;
    let results = parse_access_results(&list, limits)?;
    Ok(ConfirmedResponse::Read { access, results })
}

fn parse_list_attributes<'a>(t: &Tlv<'a>, limits: &Limits) -> (r: Result<
    ConfirmedResponse<'a>,
    Error,
>)
    ensures
        agrees(r, list_attributes_response(t@, *limits)),
{
    let mut c = t.children();
    let deletable = c.next_flag(Tag::context(0), false)?;
    let list = c.next_tag(Tag::context_constructed(1))?;
    let variables = parse_variable_list(&list, limits)?;
    Ok(ConfirmedResponse::GetNamedVariableListAttributes { deletable, variables })
}

fn parse_type<'a>(t: &Tlv<'a>, limits: &Limits) -> (r: Result<ConfirmedResponse<'a>, Error>)
    ensures
        agrees(r, type_response(t@, *limits)),
{
    let mut c = t.children();
    let deletable = c.next_flag(Tag::context(0), false)?;
    c.next_if_tag(Tag::context_constructed(1))?;
    let s = c.next_tag(Tag::context_constructed(2))?.children().next_required()?;
    let type_spec = TypeSpec::parse(&s, limits)?;
    Ok(ConfirmedResponse::GetVariableAccessAttributes { deletable, type_spec })
}

fn parse_journal<'a>(t: &Tlv<'a>, limits: &Limits) -> (r: Result<ConfirmedResponse<'a>, Error>)
    ensures
        agrees(r, journal_response(t@, *limits)),
{
    let mut c = t.children();
    let list = c.next_tag(Tag::context_constructed(0))?;
    let entries = read_list::<JournalEntry<'a>>(list.children(), limits, bound_items(limits))?;
    let more_follows = c.next_flag(Tag::context(1), false)?;
    Ok(ConfirmedResponse::ReadJournal { entries, more_follows })
}

fn parse_file_open<'a>(t: &Tlv<'a>) -> (r: Result<ConfirmedResponse<'a>, Error>)
    ensures
        agrees(r, file_open_response(t@)),
{
    let mut c = t.children();
    let frsm_id: i32 = c.next_tag(Tag::context(0))?.integer_i32()?;
    let a = c.next_tag(Tag::context_constructed(1))?;
    let attributes = FileAttributes::parse(&a)?;
    Ok(ConfirmedResponse::FileOpen { frsm_id, attributes })
}

fn parse_file_read<'a>(t: &Tlv<'a>, limits: &Limits) -> (r: Result<ConfirmedResponse<'a>, Error>)
    ensures
        agrees(r, file_read_response(t@, *limits)),
{
    let mut c = t.children();
    let data = c.next_tag(Tag::context(0))?.value;
    if data.len() > limits.max_primitive_len {
        return Err(Error::LimitExceeded { limit: "max_primitive_len", value: data.len() });
    }
    let more_follows = c.next_flag(Tag::context(1), true)?;
    Ok(ConfirmedResponse::FileRead { data, more_follows })
}

fn parse_directory<'a>(t: &Tlv<'a>, limits: &Limits) -> (r: Result<ConfirmedResponse<'a>, Error>)
    ensures
        agrees(r, directory_response(t@, *limits)),
{
    let mut c = t.children();
    let list = c.next_tag(Tag::context_constructed(0))?;
    let entries = read_list::<DirectoryEntry<'a>>(
        directory_entries(&list),
        limits,
        bound_items(limits),
    )?;
    let more_follows = c.next_flag(Tag::context(1), false)?;
    Ok(ConfirmedResponse::FileDirectory { entries, more_follows })
}

// ---- encoding --------------------------------------------------------------------------

/// The tag a response is encoded under.
pub open spec fn response_tag(m: ConfirmedResponseModel) -> Tag {
    match m {
        ConfirmedResponseModel::Status { .. } => ctx_cons(0),
        ConfirmedResponseModel::GetCapabilityList { .. } => ctx_cons(71),
        ConfirmedResponseModel::GetNameList { .. } => ctx_cons(1),
        ConfirmedResponseModel::Identify { .. } => ctx_cons(2),
        ConfirmedResponseModel::Read { .. } => ctx_cons(4),
        ConfirmedResponseModel::Write(_) => ctx_cons(5),
        ConfirmedResponseModel::GetNamedVariableListAttributes { .. } => ctx_cons(12),
        ConfirmedResponseModel::GetVariableAccessAttributes { .. } => ctx_cons(6),
        ConfirmedResponseModel::DefineNamedVariableList => ctx(11),
        ConfirmedResponseModel::DeleteNamedVariableList { .. } => ctx_cons(13),
        ConfirmedResponseModel::ReadJournal { .. } => ctx_cons(65),
        ConfirmedResponseModel::FileOpen { .. } => ctx_cons(72),
        ConfirmedResponseModel::FileRead { .. } => ctx_cons(73),
        ConfirmedResponseModel::FileClose => ctx(74),
        ConfirmedResponseModel::FileDelete => ctx(76),
        ConfirmedResponseModel::FileDirectory { .. } => ctx_cons(77),
        ConfirmedResponseModel::Other(t) => t.tag,
    }
}

/// An access specification under `[0]`, where there is one.
pub open spec fn opt_access_bytes(a: Option<VariableAccessModel>) -> Seq<u8> {
    match a {
        Some(a) => tlv(ctx_cons(0), access_bytes(a)),
        None => Seq::empty(),
    }
}

/// The contents octets of a response.
pub open spec fn response_contents(m: ConfirmedResponseModel) -> Seq<u8> {
    match m {
        ConfirmedResponseModel::Status { logical, physical, local_detail } => tlv(
            ctx(0),
            sint_octets(logical as int),
        ) + (tlv(ctx(1), sint_octets(physical as int)) + opt_bits_bytes(ctx(2), local_detail)),
        ConfirmedResponseModel::GetCapabilityList { capabilities, more_follows } => tlv(
            ctx_cons(0),
            list_bytes::<&'static str>(capabilities),
        ) + flag_bytes(ctx(1), more_follows, true),
        ConfirmedResponseModel::GetNameList { identifiers, more_follows } => tlv(
            ctx_cons(0),
            list_bytes::<&'static str>(identifiers),
        ) + flag_bytes(ctx(1), more_follows, true),
        ConfirmedResponseModel::Identify { vendor, model, revision } => tlv(
            ctx(0),
            octets_of(vendor),
        ) + (tlv(ctx(1), octets_of(model)) + tlv(ctx(2), octets_of(revision))),
        ConfirmedResponseModel::Read { access, results } => opt_access_bytes(access) + tlv(
            ctx_cons(1),
            list_bytes::<AccessResult<'static>>(results),
        ),
        ConfirmedResponseModel::Write(results) => list_bytes::<WriteResult>(results),
        ConfirmedResponseModel::GetNamedVariableListAttributes { deletable, variables } => tlv(
            ctx(0),
            bool_octets(deletable),
        ) + tlv(ctx_cons(1), list_bytes::<VariableSpecification<'static>>(variables)),
        ConfirmedResponseModel::GetVariableAccessAttributes { deletable, type_spec } => tlv(
            ctx(0),
            bool_octets(deletable),
        ) + tlv(ctx_cons(2), type_bytes(type_spec)),
        ConfirmedResponseModel::DeleteNamedVariableList { matched, deleted } => tlv(
            ctx(0),
            sint_octets(matched as int),
        ) + tlv(ctx(1), sint_octets(deleted as int)),
        ConfirmedResponseModel::ReadJournal { entries, more_follows } => tlv(
            ctx_cons(0),
            list_bytes::<JournalEntry<'static>>(entries),
        ) + flag_bytes(ctx(1), more_follows, false),
        ConfirmedResponseModel::FileOpen { frsm_id, attributes } => tlv(
            ctx(0),
            sint_octets(frsm_id as int),
        ) + tlv(ctx_cons(1), attributes_contents(attributes)),
        ConfirmedResponseModel::FileRead { data, more_follows } => tlv(ctx(0), data) + flag_bytes(
            ctx(1),
            more_follows,
            true,
        ),
        ConfirmedResponseModel::FileDirectory { entries, more_follows } => tlv(
            ctx_cons(0),
            tlv(univ(16, true), list_bytes::<DirectoryEntry<'static>>(entries)),
        ) + flag_bytes(ctx(1), more_follows, false),
        ConfirmedResponseModel::Other(t) => t.value,
        _ => Seq::empty(),
    }
}

/// The encoding of a response.
pub open spec fn response_bytes(m: ConfirmedResponseModel) -> Seq<u8> {
    tlv(response_tag(m), response_contents(m))
}

/// Why a response has no encoding.
pub open spec fn response_fault(m: ConfirmedResponseModel) -> Option<Error> {
    match m {
        ConfirmedResponseModel::Status { local_detail, .. } => opt_bits_fault(local_detail),
        ConfirmedResponseModel::GetCapabilityList { capabilities, .. } => list_fault::<
            &'static str,
        >(capabilities),
        ConfirmedResponseModel::GetNameList { identifiers, .. } => list_fault::<&'static str>(
            identifiers,
        ),
        ConfirmedResponseModel::Identify { vendor, model, revision } => first_fault(
            text_fault(vendor),
            first_fault(text_fault(model), text_fault(revision)),
        ),
        ConfirmedResponseModel::Read { access: Some(a), .. } => access_fault(a),
        ConfirmedResponseModel::GetNamedVariableListAttributes { variables, .. } => list_fault::<
            VariableSpecification<'static>,
        >(variables),
        ConfirmedResponseModel::GetVariableAccessAttributes { type_spec, .. } => type_fault(
            type_spec,
        ),
        ConfirmedResponseModel::ReadJournal { entries, .. } => list_fault::<JournalEntry<'static>>(
            entries,
        ),
        ConfirmedResponseModel::FileOpen { attributes, .. } => opt_text_fault(
            attributes.last_modified,
        ),
        ConfirmedResponseModel::FileDirectory { entries, .. } => list_fault::<
            DirectoryEntry<'static>,
        >(entries),
        _ => None,
    }
}

/// Access results always have an encoding.
pub proof fn lemma_no_fault_in_results(s: Seq<AccessResultModel>, i: nat)
    ensures
        list_fault_from::<AccessResult<'static>>(s, i) is None,
    decreases s.len() - i,
{
    if i < s.len() {
        lemma_no_fault_in_results(s, i + 1);
    }
}

proof fn lemma_no_fault_in_write_results(s: Seq<WriteResult>, i: nat)
    ensures
        list_fault_from::<WriteResult>(s, i) is None,
    decreases s.len() - i,
{
    if i < s.len() {
        lemma_no_fault_in_write_results(s, i + 1);
    }
}

fn body_names<'a>(names: &Vec<&'a str>, more_follows: bool) -> (r: Result<Encoder, Error>)
    ensures
        match list_fault::<&'static str>(views(names@)) {
            None => r matches Ok(e) && e@ == tlv(
                ctx_cons(0),
                list_bytes::<&'static str>(views(names@)),
            ) + flag_bytes(ctx(1), more_follows, true),
            Some(f) => r == Err::<Encoder, Error>(f),
        },
{
    let list = write_list(names.as_slice())?;
    let mut body = Encoder::new();
    body.constructed(Tag::context_constructed(0), &list);
    body.flag(Tag::context(1), more_follows, true);
    assert(body@ =~= tlv(ctx_cons(0), list@) + flag_bytes(ctx(1), more_follows, true));
    Ok(body)
}

fn body_read<'a>(
    access: &Option<VariableAccess<'a>>,
    results: &Vec<AccessResult<'a>>,
) -> (r: Result<Encoder, Error>)
    ensures
        ({
            let m = ConfirmedResponseModel::Read {
                access: opt_view(*access),
                results: views(results@),
            };
            match response_fault(m) {
                None => r matches Ok(e) && e@ == response_contents(m),
                Some(f) => r == Err::<Encoder, Error>(f),
            }
        }),
{
    let mut body = Encoder::new();
    if let Some(a) = access {
        let mut inner = Encoder::new();
        a.write(&mut inner)?;
        assert(inner@ =~= access_bytes(a@));
        body.constructed(Tag::context_constructed(0), &inner);
    }
    proof {
        lemma_no_fault_in_results(views(results@), 0);
    }
    let list = write_list(results.as_slice())?;
    body.constructed(Tag::context_constructed(1), &list);
    proof {
        let m = ConfirmedResponseModel::Read {
            access: opt_view(*access),
            results: views(results@),
        };
        assert(body@ =~= response_contents(m));
    }
    Ok(body)
}

impl<'a> ConfirmedResponse<'a> {
    /// Decode one service response.
    pub fn parse(t: Tlv<'a>, limits: &Limits) -> (r: Result<ConfirmedResponse<'a>, Error>)
        ensures
            agrees(r, response_of(t@, *limits)),
    {
        if t.tag.class != Class::Context {
            return Err(Error::decode(DecodeReason::UnexpectedTag, t.offset));
        }
        match t.tag.number {
            0 => parse_status(&t),
            1 => {
                let (identifiers, more_follows) = parse_names(&t, limits)?;
                Ok(ConfirmedResponse::GetNameList { identifiers, more_follows })
            },
            2 => parse_identify(&t),
            4 => parse_read(&t, limits),
            5 => Ok(
                ConfirmedResponse::Write(
                    read_list::<WriteResult>(t.children(), limits, bound_members(limits))?,
                ),
            ),
            6 => parse_type(&t, limits),
            11 => Ok(ConfirmedResponse::DefineNamedVariableList),
            12 => parse_list_attributes(&t, limits),
            13 => {
                let mut c = t.children();
                let matched: u32 = c.next_tag(Tag::context(0))?.unsigned_lenient_u32()?;
                let deleted: u32 = c.next_tag(Tag::context(1))?.unsigned_lenient_u32()?;
                Ok(ConfirmedResponse::DeleteNamedVariableList { matched, deleted })
            },
            65 => parse_journal(&t, limits),
            71 => {
                let (capabilities, more_follows) = parse_names(&t, limits)?;
                Ok(ConfirmedResponse::GetCapabilityList { capabilities, more_follows })
            },
            72 => parse_file_open(&t),
            73 => parse_file_read(&t, limits),
            74 => Ok(ConfirmedResponse::FileClose),
            76 => Ok(ConfirmedResponse::FileDelete),
            77 => parse_directory(&t, limits),
            _ => Ok(ConfirmedResponse::Other(t)),
        }
    }

    /// Encode this response into `e`.
    pub fn write(&self, e: &mut Encoder) -> (r: Result<(), Error>)
        ensures
            wrote(r, old(e)@, final(e)@, response_fault(self@), response_bytes(self@)),
    {
        match self {
            ConfirmedResponse::GetNameList { identifiers, more_follows } => {
                let body = body_names(identifiers, *more_follows)?;
                e.constructed(Tag::context_constructed(SERVICE_GET_NAME_LIST), &body);
            },
            ConfirmedResponse::Status { logical, physical, local_detail } => {
                let mut body = Encoder::new();
                body.integer(Tag::context(0), *logical);
                body.integer(Tag::context(1), *physical);
                body.opt_bit_string(Tag::context(2), *local_detail)?;
                assert(body@ =~= response_contents(self@));
                e.constructed(Tag::context_constructed(SERVICE_STATUS), &body);
            },
            ConfirmedResponse::GetCapabilityList { capabilities, more_follows } => {
                let body = body_names(capabilities, *more_follows)?;
                e.constructed(Tag::context_constructed(SERVICE_GET_CAPABILITY_LIST), &body);
            },
            ConfirmedResponse::Identify { vendor, model, revision } => {
                let mut body = Encoder::new();
                body.visible_string(Tag::context(0), vendor)?;
                body.visible_string(Tag::context(1), model)?;
                body.visible_string(Tag::context(2), revision)?;
                assert(body@ =~= response_contents(self@));
                e.constructed(Tag::context_constructed(SERVICE_IDENTIFY), &body);
            },
            ConfirmedResponse::Read { access, results } => {
                let body = body_read(access, results)?;
                e.constructed(Tag::context_constructed(SERVICE_READ), &body);
            },
            ConfirmedResponse::Write(results) => {
                proof {
                    lemma_no_fault_in_write_results(views(results@), 0);
                }
                let body = write_list(results.as_slice())?;
                e.constructed(Tag::context_constructed(SERVICE_WRITE), &body);
            },
            ConfirmedResponse::GetNamedVariableListAttributes { deletable, variables } => {
                let list = write_list(variables.as_slice())?;
                let mut body = Encoder::new();
                body.boolean(Tag::context(0), *deletable);
                body.constructed(Tag::context_constructed(1), &list);
                assert(body@ =~= response_contents(self@));
                e.constructed(Tag::context_constructed(SERVICE_GET_NVL_ATTRIBUTES), &body);
            },
            ConfirmedResponse::GetVariableAccessAttributes { deletable, type_spec } => {
                let mut inner = Encoder::new();
                type_spec.write(&mut inner)?;
                assert(inner@ =~= type_bytes(type_spec@));
                let mut body = Encoder::new();
                body.boolean(Tag::context(0), *deletable);
                body.constructed(Tag::context_constructed(2), &inner);
                assert(body@ =~= response_contents(self@));
                e.constructed(
                    Tag::context_constructed(SERVICE_GET_VARIABLE_ACCESS_ATTRIBUTES),
                    &body,
                );
            },
            ConfirmedResponse::DefineNamedVariableList => e.null(Tag::context(SERVICE_DEFINE_NVL)),
            ConfirmedResponse::DeleteNamedVariableList { matched, deleted } => {
                let mut body = Encoder::new();
                body.unsigned(Tag::context(0), *matched as u64);
                body.unsigned(Tag::context(1), *deleted as u64);
                assert(body@ =~= response_contents(self@));
                e.constructed(Tag::context_constructed(SERVICE_DELETE_NVL), &body);
            },
            ConfirmedResponse::ReadJournal { entries, more_follows } => {
                let list = write_list(entries.as_slice())?;
                let mut body = Encoder::new();
                body.constructed(Tag::context_constructed(0), &list);
                body.flag(Tag::context(1), *more_follows, false);
                assert(body@ =~= response_contents(self@));
                e.constructed(Tag::context_constructed(SERVICE_READ_JOURNAL), &body);
            },
            ConfirmedResponse::FileOpen { frsm_id, attributes } => {
                let mut body = Encoder::new();
                body.integer(Tag::context(0), *frsm_id as i64);
                attributes.write(Tag::context_constructed(1), &mut body)?;
                assert(body@ =~= response_contents(self@));
                e.constructed(Tag::context_constructed(SERVICE_FILE_OPEN), &body);
            },
            ConfirmedResponse::FileRead { data, more_follows } => {
                let mut body = Encoder::new();
                body.primitive(Tag::context(0), data);
                body.flag(Tag::context(1), *more_follows, true);
                assert(body@ =~= response_contents(self@));
                e.constructed(Tag::context_constructed(SERVICE_FILE_READ), &body);
            },
            ConfirmedResponse::FileClose => e.null(Tag::context(SERVICE_FILE_CLOSE)),
            ConfirmedResponse::FileDelete => e.null(Tag::context(SERVICE_FILE_DELETE)),
            ConfirmedResponse::FileDirectory { entries, more_follows } => {
                let list = write_list(entries.as_slice())?;
                let mut inner = Encoder::new();
                inner.constructed(Tag::universal(UNIVERSAL_SEQUENCE, true), &list);
                assert(inner@ =~= tlv(univ(16, true), list@));
                let mut body = Encoder::new();
                body.constructed(Tag::context_constructed(0), &inner);
                body.flag(Tag::context(1), *more_follows, false);
                assert(body@ =~= response_contents(self@));
                e.constructed(Tag::context_constructed(SERVICE_FILE_DIRECTORY), &body);
            },
            ConfirmedResponse::Other(t) => e.primitive(t.tag, t.value),
        }
        Ok(())
    }
}

// ---- laws ------------------------------------------------------------------------------

/// Whether a decoder with these limits takes a response for the same service.
pub open spec fn response_fits(m: ConfirmedResponseModel, limits: Limits) -> bool {
    match m {
        ConfirmedResponseModel::GetCapabilityList { capabilities, .. } => list_fits::<
            &'static str,
        >(capabilities, limits, items_bound(limits)),
        ConfirmedResponseModel::GetNameList { identifiers, .. } => list_fits::<&'static str>(
            identifiers,
            limits,
            items_bound(limits),
        ),
        ConfirmedResponseModel::Read { access, results } => {
            &&& access matches Some(a) ==> access_fits(a)
            &&& list_fits::<AccessResult<'static>>(results, limits, members_bound(limits))
        },
        ConfirmedResponseModel::Write(results) => list_fits::<WriteResult>(
            results,
            limits,
            members_bound(limits),
        ),
        ConfirmedResponseModel::GetNamedVariableListAttributes { variables, .. } => list_fits::<
            VariableSpecification<'static>,
        >(variables, limits, members_bound(limits)),
        ConfirmedResponseModel::GetVariableAccessAttributes { type_spec, .. } => type_fits(
            type_spec,
            limits,
            0,
        ),
        ConfirmedResponseModel::ReadJournal { entries, .. } => list_fits::<JournalEntry<'static>>(
            entries,
            limits,
            items_bound(limits),
        ),
        ConfirmedResponseModel::FileRead { data, .. } => data.len() <= limits.max_primitive_len,
        ConfirmedResponseModel::FileDirectory { entries, .. } => list_fits::<
            DirectoryEntry<'static>,
        >(entries, limits, items_bound(limits)),
        ConfirmedResponseModel::Other(t) => t.tag.class == Class::Context && !known_service(
            t.tag.number,
        ),
        _ => true,
    }
}

/// Whether two responses differ at most in where kept elements stood.
pub open spec fn same_response(a: ConfirmedResponseModel, b: ConfirmedResponseModel) -> bool {
    match (a, b) {
        (
            ConfirmedResponseModel::Read { access: a1, results: r1 },
            ConfirmedResponseModel::Read { access: a2, results: r2 },
        ) => same_list::<AccessResult<'static>>(r1, r2) && match (a1, a2) {
            (Some(x), Some(y)) => same_access(x, y),
            (None, None) => true,
            _ => false,
        },
        (
            ConfirmedResponseModel::GetNamedVariableListAttributes { deletable: d1, variables: v1 },
            ConfirmedResponseModel::GetNamedVariableListAttributes { deletable: d2, variables: v2 },
        ) => d1 == d2 && same_list::<VariableSpecification<'static>>(v1, v2),
        (
            ConfirmedResponseModel::ReadJournal { entries: e1, more_follows: m1 },
            ConfirmedResponseModel::ReadJournal { entries: e2, more_follows: m2 },
        ) => m1 == m2 && same_list::<JournalEntry<'static>>(e1, e2),
        (ConfirmedResponseModel::Other(x), ConfirmedResponseModel::Other(y)) => same_element(x, y),
        _ => a == b,
    }
}

proof fn lemma_equal_list<'a, T: Element<'a>>(a: Seq<T::V>, b: Seq<T::V>)
    requires
        same_list::<T>(a, b),
        forall|x: T::V, y: T::V| #[trigger] T::same(x, y) ==> x == y,
    ensures
        a == b,
{
    assert forall|i: int| 0 <= i < a.len() implies a[i] == b[i] by {
        assert(T::same(a[i], b[i]));
    }
    assert(a =~= b);
}

proof fn lemma_names_and_more(
    names: Seq<Seq<char>>,
    more: bool,
    limits: Limits,
    tag: Tag,
    offset: usize,
)
    requires
        list_fault::<&'static str>(names) is None,
        list_fits::<&'static str>(names, limits, items_bound(limits)),
        (tlv(ctx_cons(0), list_bytes::<&'static str>(names)) + flag_bytes(ctx(1), more, true)).len()
            <= u64::MAX,
    ensures
        names_and_more(
            laws::element_at(
                tag,
                tlv(ctx_cons(0), list_bytes::<&'static str>(names)) + flag_bytes(
                    ctx(1),
                    more,
                    true,
                ),
                offset,
            ),
            limits,
        ) == Ok::<(Seq<Seq<char>>, bool), Error>((names, more)),
{
    broadcast use laws::lemma_tlv_len;

    let list = list_bytes::<&'static str>(names);
    let last = flag_bytes(ctx(1), more, true);
    let c = laws::element_at(tag, tlv(ctx_cons(0), list) + last, offset).children();
    laws::lemma_first(ctx_cons(0), list, last, c.offset);
    let at = laws::element_at(ctx_cons(0), list, c.offset).value_offset;
    lemma_list_round_trip::<&'static str>(names, limits, items_bound(limits), at);
    let got = listed::<&'static str>(
        CursorModel { bytes: list, offset: at },
        limits,
        items_bound(limits),
        Seq::empty(),
    );
    lemma_equal_list::<&'static str>(got->Ok_0, names);
    assert(last + Seq::empty() =~= last);
    laws::lemma_flag(ctx(1), more, true, Seq::empty(), c.rest().offset);
}

proof fn lemma_read_response(m: ConfirmedResponseModel, limits: Limits, offset: usize)
    requires
        m is Read,
        response_fault(m) is None,
        response_fits(m, limits),
        response_contents(m).len() <= u64::MAX,
    ensures
        read_response(
            laws::element_at(response_tag(m), response_contents(m), offset),
            limits,
        ) matches Ok(x) && same_response(x, m),
{
    broadcast use laws::lemma_tlv_len;

    if let ConfirmedResponseModel::Read { access, results } = m {
        let c = laws::element_at(response_tag(m), response_contents(m), offset).children();
        let list = list_bytes::<AccessResult<'static>>(results);
        let last = tlv(ctx_cons(1), list);
        assert(last + Seq::empty() =~= last);
        laws::lemma_lacks(ctx_cons(1), list, Seq::empty(), ctx_cons(0));
        match access {
            Some(a) => {
                laws::lemma_present(ctx_cons(0), access_bytes(a), last, c.offset);
                let at = laws::element_at(ctx_cons(0), access_bytes(a), c.offset).value_offset;
                laws::lemma_only(access_tag(a), access_contents(a), at);
                lemma_access_round_trip(a, at);
            },
            None => {
                assert(response_contents(m) =~= last);
                laws::lemma_absent(last, ctx_cons(0), c.offset);
            },
        }
        let c1 = c.skip_optional(ctx_cons(0));
        laws::lemma_only(ctx_cons(1), list, c1.offset);
        lemma_no_fault_in_results(results, 0);
        lemma_list_round_trip::<AccessResult<'static>>(
            results,
            limits,
            members_bound(limits),
            laws::element_at(ctx_cons(1), list, c1.offset).value_offset,
        );
    }
}

proof fn lemma_attribute_responses(m: ConfirmedResponseModel, limits: Limits, offset: usize)
    requires
        m is GetNamedVariableListAttributes || m is GetVariableAccessAttributes,
        response_fault(m) is None,
        response_fits(m, limits),
        response_contents(m).len() <= u64::MAX,
    ensures
        response_of(
            laws::element_at(response_tag(m), response_contents(m), offset),
            limits,
        ) matches Ok(x) && same_response(x, m),
{
    broadcast use laws::lemma_tlv_len;

    let c = laws::element_at(response_tag(m), response_contents(m), offset).children();
    match m {
        ConfirmedResponseModel::GetNamedVariableListAttributes { deletable, variables } => {
            let list = list_bytes::<VariableSpecification<'static>>(variables);
            let last = tlv(ctx_cons(1), list);
            laws::lemma_present(ctx(0), bool_octets(deletable), last, c.offset);
            let c1 = c.skip_optional(ctx(0));
            laws::lemma_only(ctx_cons(1), list, c1.offset);
            lemma_list_round_trip::<VariableSpecification<'static>>(
                variables,
                limits,
                members_bound(limits),
                laws::element_at(ctx_cons(1), list, c1.offset).value_offset,
            );
        },
        ConfirmedResponseModel::GetVariableAccessAttributes { deletable, type_spec } => {
            let inner = type_bytes(type_spec);
            let last = tlv(ctx_cons(2), inner);
            laws::lemma_present(ctx(0), bool_octets(deletable), last, c.offset);
            let c1 = c.skip_optional(ctx(0));
            assert(last + Seq::empty() =~= last);
            laws::lemma_lacks(ctx_cons(2), inner, Seq::empty(), ctx_cons(1));
            laws::lemma_absent(last, ctx_cons(1), c1.offset);
            laws::lemma_wrapped(
                ctx_cons(2),
                type_tag(type_spec),
                type_contents(type_spec),
                Seq::empty(),
                c1.offset,
            );
            lemma_type_round_trip(
                type_spec,
                limits,
                0,
                laws::element_at(ctx_cons(2), inner, c1.offset).value_offset,
            );
        },
        _ => {},
    }
}

proof fn lemma_directory_response(m: ConfirmedResponseModel, limits: Limits, offset: usize)
    requires
        m is FileDirectory,
        response_fault(m) is None,
        response_fits(m, limits),
        response_contents(m).len() <= u64::MAX,
    ensures
        directory_response(
            laws::element_at(response_tag(m), response_contents(m), offset),
            limits,
        ) == Ok::<ConfirmedResponseModel, Error>(m),
{
    broadcast use laws::lemma_tlv_len;

    if let ConfirmedResponseModel::FileDirectory { entries, more_follows } = m {
        let c = laws::element_at(response_tag(m), response_contents(m), offset).children();
        let list = list_bytes::<DirectoryEntry<'static>>(entries);
        let inner = tlv(univ(16, true), list);
        let last = flag_bytes(ctx(1), more_follows, false);
        laws::lemma_first(ctx_cons(0), inner, last, c.offset);
        let t = laws::element_at(ctx_cons(0), inner, c.offset);
        laws::lemma_only(univ(16, true), list, t.value_offset);
        let wrapper = laws::element_at(univ(16, true), list, t.value_offset);
        if entries.len() > 0 {
            let first = <DirectoryEntry<'static> as Element<'static>>::contents_of(entries[0]);
            let more = crate::ber::list::list_from::<DirectoryEntry<'static>>(entries, 1);
            assert(list == tlv(univ(16, true), first) + more);
            laws::lemma_first(univ(16, true), first, more, wrapper.value_offset);
        }
        assert(directory_cursor(t) == wrapper.children());
        lemma_list_round_trip::<DirectoryEntry<'static>>(
            entries,
            limits,
            items_bound(limits),
            wrapper.value_offset,
        );
        let got = listed::<DirectoryEntry<'static>>(
            wrapper.children(),
            limits,
            items_bound(limits),
            Seq::empty(),
        );
        lemma_equal_list::<DirectoryEntry<'static>>(got->Ok_0, entries);
        assert(last + Seq::empty() =~= last);
        laws::lemma_flag(ctx(1), more_follows, false, Seq::empty(), c.rest().offset);
    }
}

proof fn lemma_journal_response(m: ConfirmedResponseModel, limits: Limits, offset: usize)
    requires
        m is ReadJournal,
        response_fault(m) is None,
        response_fits(m, limits),
        response_contents(m).len() <= u64::MAX,
    ensures
        journal_response(
            laws::element_at(response_tag(m), response_contents(m), offset),
            limits,
        ) matches Ok(x) && same_response(x, m),
{
    broadcast use laws::lemma_tlv_len;

    if let ConfirmedResponseModel::ReadJournal { entries, more_follows } = m {
        let c = laws::element_at(response_tag(m), response_contents(m), offset).children();
        let list = list_bytes::<JournalEntry<'static>>(entries);
        let last = flag_bytes(ctx(1), more_follows, false);
        laws::lemma_first(ctx_cons(0), list, last, c.offset);
        lemma_list_round_trip::<JournalEntry<'static>>(
            entries,
            limits,
            items_bound(limits),
            laws::element_at(ctx_cons(0), list, c.offset).value_offset,
        );
        assert(last + Seq::empty() =~= last);
        laws::lemma_flag(ctx(1), more_follows, false, Seq::empty(), c.rest().offset);
    }
}

proof fn lemma_plain_responses(m: ConfirmedResponseModel, limits: Limits, offset: usize)
    requires
        m is Status || m is Identify || m is DeleteNamedVariableList || m is FileOpen
            || m is FileRead,
        response_fault(m) is None,
        response_fits(m, limits),
        response_contents(m).len() <= u64::MAX,
    ensures
        response_of(
            laws::element_at(response_tag(m), response_contents(m), offset),
            limits,
        ) == Ok::<ConfirmedResponseModel, Error>(m),
{
    broadcast use laws::lemma_tlv_len;

    let c = laws::element_at(response_tag(m), response_contents(m), offset).children();
    match m {
        ConfirmedResponseModel::Status { logical, physical, local_detail } => {
            let last = opt_bits_bytes(ctx(2), local_detail);
            let rest = tlv(ctx(1), sint_octets(physical as int)) + last;
            laws::lemma_integer(ctx(0), logical, rest, c.offset);
            laws::lemma_integer(ctx(1), physical, last, c.rest().offset);
            assert(last + Seq::empty() =~= last);
            laws::lemma_opt_bits(ctx(2), local_detail, Seq::empty(), c.rest().rest().offset);
        },
        ConfirmedResponseModel::Identify { vendor, model, revision } => {
            let last = tlv(ctx(2), octets_of(revision));
            let rest = tlv(ctx(1), octets_of(model)) + last;
            laws::lemma_visible(ctx(0), vendor, rest, c.offset);
            laws::lemma_visible(ctx(1), model, last, c.rest().offset);
            assert(last + Seq::empty() =~= last);
            laws::lemma_visible(ctx(2), revision, Seq::empty(), c.rest().rest().offset);
        },
        ConfirmedResponseModel::DeleteNamedVariableList { matched, deleted } => {
            let last = tlv(ctx(1), sint_octets(deleted as int));
            laws::lemma_unsigned32(ctx(0), matched, last, c.offset);
            assert(last + Seq::empty() =~= last);
            laws::lemma_unsigned32(ctx(1), deleted, Seq::empty(), c.rest().offset);
        },
        ConfirmedResponseModel::FileOpen { frsm_id, attributes } => {
            let a = attributes_contents(attributes);
            let last = tlv(ctx_cons(1), a);
            laws::lemma_integer_field(ctx(0), frsm_id as i64, c.offset);
            laws::lemma_first(ctx(0), sint_octets(frsm_id as int), last, c.offset);
            laws::lemma_only(ctx_cons(1), a, c.rest().offset);
            lemma_attributes_round_trip(attributes, ctx_cons(1), c.rest().offset);
        },
        ConfirmedResponseModel::FileRead { data, more_follows } => {
            let last = flag_bytes(ctx(1), more_follows, true);
            laws::lemma_first(ctx(0), data, last, c.offset);
            assert(last + Seq::empty() =~= last);
            laws::lemma_flag(ctx(1), more_follows, true, Seq::empty(), c.rest().offset);
        },
        _ => {},
    }
}

/// A response that has an encoding and stays within the limits reads back as it was.
pub proof fn lemma_response_round_trip(m: ConfirmedResponseModel, limits: Limits, offset: usize)
    requires
        response_fault(m) is None,
        response_fits(m, limits),
        response_contents(m).len() <= u64::MAX,
    ensures
        response_of(
            laws::element_at(response_tag(m), response_contents(m), offset),
            limits,
        ) matches Ok(x) && same_response(x, m),
{
    let at = laws::element_at(response_tag(m), response_contents(m), offset).value_offset;
    match m {
        ConfirmedResponseModel::GetCapabilityList { capabilities, more_follows } => {
            lemma_names_and_more(capabilities, more_follows, limits, ctx_cons(71), offset)
        },
        ConfirmedResponseModel::GetNameList { identifiers, more_follows } => lemma_names_and_more(
            identifiers,
            more_follows,
            limits,
            ctx_cons(1),
            offset,
        ),
        ConfirmedResponseModel::Read { .. } => lemma_read_response(m, limits, offset),
        ConfirmedResponseModel::Write(results) => {
            lemma_no_fault_in_write_results(results, 0);
            lemma_list_round_trip::<WriteResult>(results, limits, members_bound(limits), at);
            let got = listed::<WriteResult>(
                CursorModel { bytes: list_bytes::<WriteResult>(results), offset: at },
                limits,
                members_bound(limits),
                Seq::empty(),
            );
            lemma_equal_list::<WriteResult>(got->Ok_0, results);
        },
        ConfirmedResponseModel::GetNamedVariableListAttributes { .. } => {
            lemma_attribute_responses(m, limits, offset)
        },
        ConfirmedResponseModel::GetVariableAccessAttributes { .. } => lemma_attribute_responses(
            m,
            limits,
            offset,
        ),
        ConfirmedResponseModel::ReadJournal { .. } => lemma_journal_response(m, limits, offset),
        ConfirmedResponseModel::FileDirectory { .. } => lemma_directory_response(
            m,
            limits,
            offset,
        ),
        ConfirmedResponseModel::Status { .. } => lemma_plain_responses(m, limits, offset),
        ConfirmedResponseModel::Identify { .. } => lemma_plain_responses(m, limits, offset),
        ConfirmedResponseModel::DeleteNamedVariableList { .. } => lemma_plain_responses(
            m,
            limits,
            offset,
        ),
        ConfirmedResponseModel::FileOpen { .. } => lemma_plain_responses(m, limits, offset),
        ConfirmedResponseModel::FileRead { .. } => lemma_plain_responses(m, limits, offset),
        _ => {},
    }
}

proof fn lemma_names_and_more_decoded(t: TlvModel, limits: Limits)
    ensures
        names_and_more(t, limits) matches Ok((names, _)) ==> list_fault::<&'static str>(
            names,
        ) is None && list_fits::<&'static str>(names, limits, items_bound(limits)),
{
    if let Ok(list) = t.children().tagged(ctx_cons(0)) {
        lemma_list_decoded::<&'static str>(list.children(), limits, items_bound(limits));
    }
}

proof fn lemma_identify_decoded(t: TlvModel, limits: Limits)
    ensures
        identify_response(t) matches Ok(m) ==> response_fault(m) is None && response_fits(
            m,
            limits,
        ),
{
    let c = t.children();
    laws::lemma_required_decoded(c, ctx(0));
    laws::lemma_required_decoded(c.rest(), ctx(1));
    laws::lemma_required_decoded(c.rest().rest(), ctx(2));
}

proof fn lemma_read_decoded(t: TlvModel, limits: Limits)
    ensures
        read_response(t, limits) matches Ok(m) ==> response_fault(m) is None && response_fits(
            m,
            limits,
        ),
{
    let c = t.children();
    if let Ok(Some(a)) = c.optional(ctx_cons(0)) {
        if let Ok(a) = a.children().first() {
            lemma_access_decoded(a);
        }
    }
    if let Ok(list) = c.skip_optional(ctx_cons(0)).tagged(ctx_cons(1)) {
        lemma_list_decoded::<AccessResult<'static>>(
            list.children(),
            limits,
            members_bound(limits),
        );
    }
}

proof fn lemma_attributes_responses_decoded(t: TlvModel, limits: Limits)
    ensures
        list_attributes_response(t, limits) matches Ok(m) ==> response_fault(m) is None
            && response_fits(m, limits),
        type_response(t, limits) matches Ok(m) ==> response_fault(m) is None && response_fits(
            m,
            limits,
        ),
{
    let c1 = t.children().skip_optional(ctx(0));
    if let Ok(list) = c1.tagged(ctx_cons(1)) {
        lemma_list_decoded::<VariableSpecification<'static>>(
            list.children(),
            limits,
            members_bound(limits),
        );
    }
    if let Ok(s) = c1.skip_optional(ctx_cons(1)).wrapped(ctx_cons(2)) {
        lemma_type_decoded(s, limits, 0);
    }
}

proof fn lemma_entries_decoded(t: TlvModel, limits: Limits)
    ensures
        journal_response(t, limits) matches Ok(m) ==> response_fault(m) is None && response_fits(
            m,
            limits,
        ),
        directory_response(t, limits) matches Ok(m) ==> response_fault(m) is None && response_fits(
            m,
            limits,
        ),
{
    if let Ok(list) = t.children().tagged(ctx_cons(0)) {
        lemma_list_decoded::<JournalEntry<'static>>(list.children(), limits, items_bound(limits));
        lemma_list_decoded::<DirectoryEntry<'static>>(
            directory_cursor(list),
            limits,
            items_bound(limits),
        );
    }
}

/// A response that was decoded has an encoding, and reads back.
pub proof fn lemma_response_decoded(t: TlvModel, limits: Limits)
    ensures
        response_of(t, limits) matches Ok(m) ==> response_fault(m) is None && response_fits(
            m,
            limits,
        ),
{
    if t.tag.number == 1 || t.tag.number == 71 {
        lemma_names_and_more_decoded(t, limits);
    } else if t.tag.number == 2 {
        lemma_identify_decoded(t, limits);
    } else if t.tag.number == 4 {
        lemma_read_decoded(t, limits);
    } else if t.tag.number == 5 {
        lemma_list_decoded::<WriteResult>(t.children(), limits, members_bound(limits));
    } else if t.tag.number == 6 || t.tag.number == 12 {
        lemma_attributes_responses_decoded(t, limits);
    } else if t.tag.number == 65 || t.tag.number == 77 {
        lemma_entries_decoded(t, limits);
    } else if t.tag.number == 72 {
        if let Ok(a) = t.children().rest().tagged(ctx_cons(1)) {
            lemma_attributes_decoded(a);
        }
    }
}

/// Responses that differ only in where elements stood have one encoding.
pub proof fn lemma_same_response_octets(a: ConfirmedResponseModel, b: ConfirmedResponseModel)
    requires
        same_response(a, b),
    ensures
        response_bytes(a) == response_bytes(b),
{
    match (a, b) {
        (
            ConfirmedResponseModel::Read { access: x, results: v },
            ConfirmedResponseModel::Read { access: y, results: w },
        ) => {
            if x is Some {
                lemma_same_access_octets(x->Some_0, y->Some_0);
            }
            lemma_same_octets::<AccessResult<'static>>(v, w);
        },
        (
            ConfirmedResponseModel::GetNamedVariableListAttributes { variables: v, .. },
            ConfirmedResponseModel::GetNamedVariableListAttributes { variables: w, .. },
        ) => lemma_same_octets::<VariableSpecification<'static>>(v, w),
        (
            ConfirmedResponseModel::ReadJournal { entries: v, .. },
            ConfirmedResponseModel::ReadJournal { entries: w, .. },
        ) => lemma_same_octets::<JournalEntry<'static>>(v, w),
        _ => {},
    }
}

} // verus!
