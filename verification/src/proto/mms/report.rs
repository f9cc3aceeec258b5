//! Reports: what a report control block emits, decoded.
//!
//! A report is a list of values: a header whose fields are present or absent as `OptFlds` says,
//! an inclusion bit string, and the values of the data-set members the bit string includes.
//!
//! ```text
//! RptID, OptFlds, [SqNum], [TimeOfEntry], [DatSet], [BufOvfl], [EntryID], [ConfRev],
//! [SubSeqNum, MoreSegmentsFollow], Inclusion, [DataRef ...], Value ..., [ReasonCode ...]
//! ```

pub mod assembly;
pub mod laws;

use vstd::prelude::*;
use vstd::slice::*;
use vstd::string::*;
use crate::ber::list::views;
use crate::ber::{duplicate_text, opt_view};
use crate::common::queue::bump;
use crate::common::{
    agrees, agrees_opt, bit, bit_at, entry_octets, entry_time_from, entry_time_of,
    lemma_entry_time_round_trip, lemma_opt_flds_round_trip, lemma_reason_code_round_trip, utc_nanos,
    weight, weight_of, DecodeReason, EntryTime, Error, Limits,
};
pub use crate::common::{OptFlds, ReasonCode, TrgOps};
use crate::proto::data::{
    data_of, models, opt_flds_value, owned, reason_code_value, scalar_of, value_opt_flds,
    value_reason_code, DataView, Scalar, Typed, Value, ValueModel,
};
use crate::proto::mms::variables::{AccessResult, AccessResultModel};

verus! {

/// One member of a data set, as a report delivered it.
#[derive(Debug, PartialEq)]
pub struct ReportEntry {
    /// Index of this member in the data set, from the inclusion bit string.
    pub index: usize,
    /// The data reference, when the report carries them.
    pub reference: Option<String>,
    /// The value.
    pub value: Value,
    /// Why it was included, when the report says.
    pub reason: Option<ReasonCode>,
}

/// What a [`ReportEntry`] stands for.
pub struct ReportEntryModel {
    pub index: usize,
    pub reference: Option<Seq<char>>,
    pub value: ValueModel,
    pub reason: Option<ReasonCode>,
}

impl View for ReportEntry {
    type V = ReportEntryModel;

    open spec fn view(&self) -> ReportEntryModel {
        ReportEntryModel {
            index: self.index,
            reference: opt_view(self.reference),
            value: self.value@,
            reason: self.reason,
        }
    }
}

/// A decoded report.
#[derive(Debug, PartialEq)]
pub struct Report {
    /// `RptID`: what the control block calls itself.
    pub rpt_id: String,
    /// `OptFlds`: which of the fields below the sender chose to carry.
    pub opt_flds: OptFlds,
    /// `SqNum`: the control block's report counter.
    pub seq_num: Option<u32>,
    /// `TimeOfEntry`: when the entry was created.
    pub time_of_entry: Option<EntryTime>,
    /// `DatSet`: the data set.
    pub data_set: Option<String>,
    /// `BufOvfl`: the server dropped entries this client had not read.
    pub buf_ovfl: Option<bool>,
    /// `EntryID`: where to resume a buffered report control block.
    pub entry_id: Option<Vec<u8>>,
    /// `ConfRev`: the data set's configuration revision.
    pub conf_rev: Option<u32>,
    /// `SubSeqNum`: this segment's number, when the report is segmented.
    pub sub_seq_num: Option<u32>,
    /// `MoreSegmentsFollow`: another segment of this report is coming.
    pub more_segments_follow: bool,
    /// The inclusion bit string: unused bits, and one bit per data-set member.
    pub inclusion: (u8, Vec<u8>),
    /// The members that were included, in order.
    pub entries: Vec<ReportEntry>,
}

/// What a [`Report`] stands for.
pub struct ReportModel {
    pub rpt_id: Seq<char>,
    pub opt_flds: OptFlds,
    pub seq_num: Option<u32>,
    pub time_of_entry: Option<EntryTime>,
    pub data_set: Option<Seq<char>>,
    pub buf_ovfl: Option<bool>,
    pub entry_id: Option<Seq<u8>>,
    pub conf_rev: Option<u32>,
    pub sub_seq_num: Option<u32>,
    pub more_segments_follow: bool,
    pub unused: u8,
    pub inclusion: Seq<u8>,
    pub entries: Seq<ReportEntryModel>,
}

impl View for Report {
    type V = ReportModel;

    open spec fn view(&self) -> ReportModel {
        ReportModel {
            rpt_id: self.rpt_id@,
            opt_flds: self.opt_flds,
            seq_num: self.seq_num,
            time_of_entry: self.time_of_entry,
            data_set: opt_view(self.data_set),
            buf_ovfl: self.buf_ovfl,
            entry_id: opt_view(self.entry_id),
            conf_rev: self.conf_rev,
            sub_seq_num: self.sub_seq_num,
            more_segments_follow: self.more_segments_follow,
            unused: self.inclusion.0,
            inclusion: self.inclusion.1@,
            entries: views(self.entries@),
        }
    }
}

impl ReportEntry {
    /// A copy of this entry.
    pub fn duplicate(&self) -> (r: ReportEntry)
        ensures
            r@ == self@,
    {
        ReportEntry {
            index: self.index,
            reference: duplicate_text(&self.reference),
            value: self.value.duplicate(),
            reason: self.reason,
        }
    }
}

impl Clone for ReportEntry {
    fn clone(&self) -> (r: ReportEntry)
        ensures
            r@ == self@,
    {
        self.duplicate()
    }
}

impl Report {
    /// A copy of this report.
    pub fn duplicate(&self) -> (r: Report)
        ensures
            r@ == self@,
    {
        let mut entries: Vec<ReportEntry> = Vec::new();
        let mut i: usize = 0;
        while i < self.entries.len()
            invariant
                i <= self.entries.len(),
                entries@.len() == i,
                forall|j: int| 0 <= j < i ==> entries@[j]@ == self.entries@[j]@,
            decreases self.entries.len() - i,
        {
            let e = self.entries[i].duplicate();
            entries.push(e);
            i += 1;
        }
        assert(views(entries@) =~= views(self.entries@));
        let entry_id: Option<Vec<u8>> = match &self.entry_id {
            Some(b) => Some(slice_to_vec(b)),
            None => None,
        };
        Report {
            rpt_id: self.rpt_id.clone(),
            opt_flds: self.opt_flds,
            seq_num: self.seq_num,
            time_of_entry: self.time_of_entry,
            data_set: duplicate_text(&self.data_set),
            buf_ovfl: self.buf_ovfl,
            entry_id,
            conf_rev: self.conf_rev,
            sub_seq_num: self.sub_seq_num,
            more_segments_follow: self.more_segments_follow,
            inclusion: (self.inclusion.0, slice_to_vec(&self.inclusion.1)),
            entries,
        }
    }
}

impl Clone for Report {
    fn clone(&self) -> (r: Report)
        ensures
            r@ == self@,
    {
        self.duplicate()
    }
}

// ---- the inclusion bit string ----------------------------------------------------------

/// How many members a data set has, according to the inclusion bit string.
pub open spec fn member_count(unused: u8, bytes: Seq<u8>) -> nat {
    let bits = if bytes.len() * 8 > usize::MAX {
        usize::MAX as nat
    } else {
        bytes.len() * 8
    };
    if bits < unused {
        0
    } else {
        (bits - unused) as nat
    }
}

/// The members from `i` up to `n` that an inclusion bit string includes.
pub open spec fn included_from(bytes: Seq<u8>, n: nat, i: nat) -> Seq<usize>
    decreases n - i,
{
    if i < n {
        if bit(bytes, i) {
            seq![i as usize] + included_from(bytes, n, i + 1)
        } else {
            included_from(bytes, n, i + 1)
        }
    } else {
        Seq::empty()
    }
}

/// The members that an inclusion bit string includes, in order.
pub open spec fn included(unused: u8, bytes: Seq<u8>) -> Seq<usize> {
    included_from(bytes, member_count(unused, bytes), 0)
}

fn inclusion_len(unused: u8, bytes: &[u8]) -> (r: usize)
    ensures
        r == member_count(unused, bytes@),
{
    let bits: usize = if bytes.len() > usize::MAX / 8 {
        usize::MAX
    } else {
        bytes.len() * 8
    };
    bits.saturating_sub(unused as usize)
}

fn included_indices(unused: u8, bytes: &[u8]) -> (r: Vec<usize>)
    ensures
        r@ == included(unused, bytes@),
{
    let n: usize = inclusion_len(unused, bytes);
    let mut out: Vec<usize> = Vec::new();
    let mut i: usize = 0;
    assert(out@ + included_from(bytes@, n as nat, 0) =~= included(unused, bytes@));
    while i < n
        invariant
            i <= n,
            out@ + included_from(bytes@, n as nat, i as nat) == included(unused, bytes@),
        decreases n - i,
    {
        if bit_at(bytes, i) {
            let ghost before = out@;
            out.push(i);
            proof {
                let rest = included_from(bytes@, n as nat, (i + 1) as nat);
                assert(out@ + rest =~= before + (seq![i] + rest));
            }
        }
        i += 1;
    }
    assert(out@ + included_from(bytes@, n as nat, i as nat) =~= out@);
    out
}

// ---- decoding --------------------------------------------------------------------------

/// The value at a position, which has to be there.
pub open spec fn value_at(v: Seq<ValueModel>, at: nat, what: &'static str) -> Result<
    ValueModel,
    Error,
> {
    if at < v.len() {
        Ok(v[at as int])
    } else {
        Err(Error::NotFound(what))
    }
}

/// The text at a position.
pub open spec fn text_at(
    v: Seq<ValueModel>,
    at: nat,
    what: &'static str,
    wrong: &'static str,
) -> Result<Seq<char>, Error> {
    match value_at(v, at, what) {
        Err(e) => Err(e),
        Ok(x) => match scalar_of(x) {
            Scalar::Text(s) => Ok(s),
            _ => Err(Error::InvalidValue(wrong)),
        },
    }
}

/// The boolean at a position.
pub open spec fn bool_at(
    v: Seq<ValueModel>,
    at: nat,
    what: &'static str,
    wrong: &'static str,
) -> Result<bool, Error> {
    match value_at(v, at, what) {
        Err(e) => Err(e),
        Ok(x) => match scalar_of(x) {
            Scalar::Boolean(b) => Ok(b),
            _ => Err(Error::InvalidValue(wrong)),
        },
    }
}

/// A value as an unsigned 32-bit counter, which some servers write as a signed integer.
pub open spec fn counter_of(v: ValueModel, what: &'static str) -> Result<u32, Error> {
    match v {
        ValueModel::Unsigned(n) => if n <= u32::MAX {
            Ok(n as u32)
        } else {
            Err(Error::InvalidValue(what))
        },
        ValueModel::Integer(i) => if 0 <= i <= u32::MAX {
            Ok(i as u32)
        } else {
            Err(Error::InvalidValue(what))
        },
        _ => Err(Error::InvalidValue(what)),
    }
}

/// The counter at a position.
pub open spec fn counter_at(v: Seq<ValueModel>, at: nat, what: &'static str) -> Result<u32, Error> {
    match value_at(v, at, what) {
        Err(e) => Err(e),
        Ok(x) => counter_of(x, what),
    }
}

/// A value as the time of an entry: six octets of binary time, or a timestamp.
pub open spec fn time_of_value(v: ValueModel) -> Result<EntryTime, Error> {
    match v {
        ValueModel::BinaryTime(b) => if b.len() == 6 {
            Ok(entry_time_from(b))
        } else {
            Err(Error::InvalidValue("TimeOfEntry is not six octets"))
        },
        ValueModel::UtcTime(t) => Ok(entry_time_of((utc_nanos(t) / 1_000_000) as u64)),
        _ => Err(Error::InvalidValue("TimeOfEntry is not a binary time")),
    }
}

/// The header of a report, and how many values it takes.
pub struct HeaderModel {
    pub rpt_id: Seq<char>,
    pub opt_flds: OptFlds,
    pub seq_num: Option<u32>,
    pub time_of_entry: Option<EntryTime>,
    pub data_set: Option<Seq<char>>,
    pub buf_ovfl: Option<bool>,
    pub entry_id: Option<Seq<u8>>,
    pub conf_rev: Option<u32>,
    pub sub_seq_num: Option<u32>,
    pub more_segments_follow: bool,
    pub unused: u8,
    pub inclusion: Seq<u8>,
}

/// One where a field is present, else zero.
pub open spec fn one_if(present: bool) -> nat {
    if present {
        1
    } else {
        0
    }
}

/// Where `TimeOfEntry` is, if it is there.
pub open spec fn time_pos(o: OptFlds) -> nat {
    2 + one_if(o.sequence_number)
}

/// Where `DatSet` is, if it is there.
pub open spec fn data_set_pos(o: OptFlds) -> nat {
    time_pos(o) + one_if(o.report_time_stamp)
}

/// Where `BufOvfl` is, if it is there.
pub open spec fn overflow_pos(o: OptFlds) -> nat {
    data_set_pos(o) + one_if(o.data_set_name)
}

/// Where `EntryID` is, if it is there.
pub open spec fn entry_id_pos(o: OptFlds) -> nat {
    overflow_pos(o) + one_if(o.buffer_overflow)
}

/// Where `ConfRev` is, if it is there.
pub open spec fn conf_rev_pos(o: OptFlds) -> nat {
    entry_id_pos(o) + one_if(o.entry_id)
}

/// Where `SubSeqNum` is, if it is there.
pub open spec fn segment_pos(o: OptFlds) -> nat {
    conf_rev_pos(o) + one_if(o.conf_revision)
}

/// Where the inclusion bit string is.
pub open spec fn inclusion_pos(o: OptFlds) -> nat {
    segment_pos(o) + 2 * one_if(o.segmentation)
}

/// `SqNum`, where the options promise it.
#[verifier::opaque]
pub open spec fn seq_num_of(v: Seq<ValueModel>, o: OptFlds) -> Result<Option<u32>, Error> {
    if o.sequence_number {
        match counter_at(v, 2, "SqNum") {
            Ok(n) => Ok(Some(n)),
            Err(e) => Err(e),
        }
    } else {
        Ok(None)
    }
}

/// `TimeOfEntry`, where the options promise it.
#[verifier::opaque]
pub open spec fn time_of_entry_of(v: Seq<ValueModel>, o: OptFlds) -> Result<
    Option<EntryTime>,
    Error,
> {
    if o.report_time_stamp {
        match value_at(v, time_pos(o), "TimeOfEntry") {
            Err(e) => Err(e),
            Ok(x) => match time_of_value(x) {
                Ok(t) => Ok(Some(t)),
                Err(e) => Err(e),
            },
        }
    } else {
        Ok(None)
    }
}

/// `DatSet`, where the options promise it.
#[verifier::opaque]
pub open spec fn data_set_of(v: Seq<ValueModel>, o: OptFlds) -> Result<Option<Seq<char>>, Error> {
    if o.data_set_name {
        match text_at(v, data_set_pos(o), "DatSet", "DatSet is not a string") {
            Ok(s) => Ok(Some(s)),
            Err(e) => Err(e),
        }
    } else {
        Ok(None)
    }
}

/// `BufOvfl`, where the options promise it.
#[verifier::opaque]
pub open spec fn buf_ovfl_of(v: Seq<ValueModel>, o: OptFlds) -> Result<Option<bool>, Error> {
    if o.buffer_overflow {
        match bool_at(v, overflow_pos(o), "BufOvfl", "BufOvfl is not a boolean") {
            Ok(b) => Ok(Some(b)),
            Err(e) => Err(e),
        }
    } else {
        Ok(None)
    }
}

/// `EntryID`, where the options promise it.
#[verifier::opaque]
pub open spec fn entry_id_of(v: Seq<ValueModel>, o: OptFlds) -> Result<Option<Seq<u8>>, Error> {
    if o.entry_id {
        match value_at(v, entry_id_pos(o), "EntryID") {
            Err(e) => Err(e),
            Ok(ValueModel::OctetString(b)) => Ok(Some(b)),
            Ok(_) => Err(Error::InvalidValue("EntryID is not an octet string")),
        }
    } else {
        Ok(None)
    }
}

/// `ConfRev`, where the options promise it.
#[verifier::opaque]
pub open spec fn conf_rev_of(v: Seq<ValueModel>, o: OptFlds) -> Result<Option<u32>, Error> {
    if o.conf_revision {
        match counter_at(v, conf_rev_pos(o), "ConfRev") {
            Ok(n) => Ok(Some(n)),
            Err(e) => Err(e),
        }
    } else {
        Ok(None)
    }
}

/// `SubSeqNum` and `MoreSegmentsFollow`, where the options promise them.
#[verifier::opaque]
pub open spec fn segment_of(v: Seq<ValueModel>, o: OptFlds) -> Result<(Option<u32>, bool), Error> {
    if o.segmentation {
        match counter_at(v, segment_pos(o), "SubSeqNum") {
            Err(e) => Err(e),
            Ok(n) => match bool_at(
                v,
                segment_pos(o) + 1,
                "MoreSegmentsFollow",
                "MoreSegmentsFollow is not a boolean",
            ) {
                Err(e) => Err(e),
                Ok(more) => Ok((Some(n), more)),
            },
        }
    } else {
        Ok((None, false))
    }
}

/// The inclusion bit string.
pub open spec fn inclusion_of(v: Seq<ValueModel>, o: OptFlds) -> Result<(u8, Seq<u8>), Error> {
    match value_at(v, inclusion_pos(o), "Inclusion") {
        Err(e) => Err(e),
        Ok(ValueModel::BitString { unused, bytes }) => Ok((unused, bytes)),
        Ok(_) => Err(Error::InvalidValue("the inclusion field is not a bit string")),
    }
}

/// The report identifier and the options, which are always there.
pub open spec fn start_of(v: Seq<ValueModel>) -> Result<(Seq<char>, OptFlds), Error> {
    match text_at(v, 0, "RptID", "RptID is not a string") {
        Err(e) => Err(e),
        Ok(rpt_id) => match value_at(v, 1, "OptFlds") {
            Err(e) => Err(e),
            Ok(x) => match value_opt_flds(x) {
                Some(o) => Ok((rpt_id, o)),
                None => Err(Error::InvalidValue("OptFlds is not a bit string")),
            },
        },
    }
}

/// The header of a report.
#[verifier::opaque]
pub open spec fn header_of(v: Seq<ValueModel>) -> Result<HeaderModel, Error> {
    match start_of(v) {
        Err(e) => Err(e),
        Ok((rpt_id, o)) => match seq_num_of(v, o) {
            Err(e) => Err(e),
            Ok(seq_num) => match time_of_entry_of(v, o) {
                Err(e) => Err(e),
                Ok(time_of_entry) => match data_set_of(v, o) {
                    Err(e) => Err(e),
                    Ok(data_set) => match buf_ovfl_of(v, o) {
                        Err(e) => Err(e),
                        Ok(buf_ovfl) => match entry_id_of(v, o) {
                            Err(e) => Err(e),
                            Ok(entry_id) => match conf_rev_of(v, o) {
                                Err(e) => Err(e),
                                Ok(conf_rev) => match segment_of(v, o) {
                                    Err(e) => Err(e),
                                    Ok((sub_seq_num, more)) => match inclusion_of(v, o) {
                                        Err(e) => Err(e),
                                        Ok((unused, inclusion)) => Ok(
                                            HeaderModel {
                                                rpt_id,
                                                opt_flds: o,
                                                seq_num,
                                                time_of_entry,
                                                data_set,
                                                buf_ovfl,
                                                entry_id,
                                                conf_rev,
                                                sub_seq_num,
                                                more_segments_follow: more,
                                                unused,
                                                inclusion,
                                            },
                                        ),
                                    },
                                },
                            },
                        },
                    },
                },
            },
        },
    }
}

/// `n` references from a position on, after `acc`.
pub open spec fn references_at(
    v: Seq<ValueModel>,
    at: nat,
    n: nat,
    acc: Seq<Seq<char>>,
) -> Result<Seq<Seq<char>>, Error>
    decreases n,
{
    if n == 0 {
        Ok(acc)
    } else {
        match text_at(v, at, "data-reference", "a data reference is not a string") {
            Err(e) => Err(e),
            Ok(s) => references_at(v, at + 1, (n - 1) as nat, acc.push(s)),
        }
    }
}

/// `n` reason codes from a position on, after `acc`.
pub open spec fn reasons_at(
    v: Seq<ValueModel>,
    at: nat,
    n: nat,
    acc: Seq<ReasonCode>,
) -> Result<Seq<ReasonCode>, Error>
    decreases n,
{
    if n == 0 {
        Ok(acc)
    } else {
        match value_at(v, at, "ReasonCode") {
            Err(e) => Err(e),
            Ok(x) => match value_reason_code(x) {
                None => Err(Error::InvalidValue("a reason code is not a bit string")),
                Some(r) => reasons_at(v, at + 1, (n - 1) as nat, acc.push(r)),
            },
        }
    }
}

/// The references of a report, where the options promise them.
#[verifier::opaque]
pub open spec fn references_of(v: Seq<ValueModel>, o: OptFlds, n: nat) -> Result<
    Seq<Seq<char>>,
    Error,
> {
    if o.data_reference {
        references_at(v, inclusion_pos(o) + 1, n, Seq::empty())
    } else {
        Ok(Seq::empty())
    }
}

/// Where the values of a report start.
pub open spec fn values_pos(o: OptFlds, n: nat) -> nat {
    inclusion_pos(o) + 1 + if o.data_reference {
        n
    } else {
        0
    }
}

/// The reason codes of a report, where the options promise them.
#[verifier::opaque]
pub open spec fn reasons_of(v: Seq<ValueModel>, o: OptFlds, n: nat) -> Result<
    Seq<ReasonCode>,
    Error,
> {
    if o.reason_for_inclusion {
        reasons_at(v, values_pos(o, n) + n, n, Seq::empty())
    } else {
        Ok(Seq::empty())
    }
}

/// Where a report ends.
pub open spec fn end_pos(o: OptFlds, n: nat) -> nat {
    values_pos(o, n) + n + if o.reason_for_inclusion {
        n
    } else {
        0
    }
}

/// The entries: one per included member.
#[verifier::opaque]
pub open spec fn entries_of(
    indices: Seq<usize>,
    references: Seq<Seq<char>>,
    values: Seq<ValueModel>,
    reasons: Seq<ReasonCode>,
) -> Seq<ReportEntryModel> {
    Seq::new(
        indices.len(),
        |i: int|
            ReportEntryModel {
                index: indices[i],
                reference: if i < references.len() {
                    Some(references[i])
                } else {
                    None
                },
                value: values[i],
                reason: if i < reasons.len() {
                    Some(reasons[i])
                } else {
                    None
                },
            },
    )
}

/// The report that values spell. Every field the options promise has to be there with its
/// type, and nothing may follow the last.
pub open spec fn report_of(v: Seq<ValueModel>) -> Result<ReportModel, Error> {
    match header_of(v) {
        Err(e) => Err(e),
        Ok(h) => {
            let o = h.opt_flds;
            let indices = included(h.unused, h.inclusion);
            let n = indices.len();
            match references_of(v, o, n) {
                Err(e) => Err(e),
                Ok(references) => if values_pos(o, n) + n > v.len() {
                    Err(Error::NotFound("value"))
                } else {
                    match reasons_of(v, o, n) {
                        Err(e) => Err(e),
                        Ok(reasons) => if end_pos(o, n) != v.len() {
                            Err(
                                Error::Decode {
                                    reason: DecodeReason::TrailingBytes,
                                    offset: end_pos(o, n) as usize,
                                },
                            )
                        } else {
                            Ok(
                                ReportModel {
                                    rpt_id: h.rpt_id,
                                    opt_flds: o,
                                    seq_num: h.seq_num,
                                    time_of_entry: h.time_of_entry,
                                    data_set: h.data_set,
                                    buf_ovfl: h.buf_ovfl,
                                    entry_id: h.entry_id,
                                    conf_rev: h.conf_rev,
                                    sub_seq_num: h.sub_seq_num,
                                    more_segments_follow: h.more_segments_follow,
                                    unused: h.unused,
                                    inclusion: h.inclusion,
                                    entries: entries_of(
                                        indices,
                                        references,
                                        v.skip(values_pos(o, n) as int),
                                        reasons,
                                    ),
                                },
                            )
                        },
                    }
                },
            }
        },
    }
}

fn next<'v>(values: &'v [Value], at: usize, what: &'static str) -> (r: Result<&'v Value, Error>)
    ensures
        match r {
            Ok(v) => at < values.len() && value_at(models(values@), at as nat, what) == Ok::<
                ValueModel,
                Error,
            >(v@),
            Err(e) => value_at(models(values@), at as nat, what) == Err::<ValueModel, Error>(e),
        },
{
    if at < values.len() {
        assert(models(values@)[at as int] == values@[at as int]@);
        Ok(&values[at])
    } else {
        Err(Error::NotFound(what))
    }
}

fn next_text(values: &[Value], at: usize, what: &'static str, wrong: &'static str) -> (r: Result<
    String,
    Error,
>)
    ensures
        agrees(r, text_at(models(values@), at as nat, what, wrong)),
        r is Ok ==> at < values.len(),
{
    match next(values, at, what)?.as_str() {
        Some(s) => Ok(s.to_owned()),
        None => Err(Error::InvalidValue(wrong)),
    }
}

fn next_bool(values: &[Value], at: usize, what: &'static str, wrong: &'static str) -> (r: Result<
    bool,
    Error,
>)
    ensures
        agrees(r, bool_at(models(values@), at as nat, what, wrong)),
        r is Ok ==> at < values.len(),
{
    match next(values, at, what)?.as_bool() {
        Some(b) => Ok(b),
        None => Err(Error::InvalidValue(wrong)),
    }
}

fn unsigned(v: &Value, what: &'static str) -> (r: Result<u32, Error>)
    ensures
        agrees(r, counter_of(v@, what)),
{
    match v {
        Value::Unsigned(n) => if *n <= 0xFFFF_FFFF {
            Ok(*n as u32)
        } else {
            Err(Error::InvalidValue(what))
        },
        Value::Integer(i) => if *i >= 0 && *i <= 0xFFFF_FFFF {
            Ok(*i as u32)
        } else {
            Err(Error::InvalidValue(what))
        },
        _ => Err(Error::InvalidValue(what)),
    }
}

fn next_counter(values: &[Value], at: usize, what: &'static str) -> (r: Result<u32, Error>)
    ensures
        agrees(r, counter_at(models(values@), at as nat, what)),
        r is Ok ==> at < values.len(),
{
    let v = next(values, at, what)?;
    unsigned(v, what)
}

fn entry_time(v: &Value) -> (r: Result<EntryTime, Error>)
    ensures
        match r {
            Ok(t) => time_of_value(v@) == Ok::<EntryTime, Error>(t),
            Err(e) => time_of_value(v@) == Err::<EntryTime, Error>(e),
        },
{
    match v {
        Value::BinaryTime(b) => match EntryTime::from_octets(b) {
            Some(t) => Ok(t),
            None => Err(Error::InvalidValue("TimeOfEntry is not six octets")),
        },
        Value::UtcTime(t) => Ok(EntryTime::from_unix_millis(t.to_unix_nanos() / 1_000_000)),
        _ => Err(Error::InvalidValue("TimeOfEntry is not a binary time")),
    }
}

fn read_references(values: &[Value], at: usize, n: usize) -> (r: Result<Vec<String>, Error>)
    requires
        at <= values.len(),
    ensures
        match r {
            Ok(v) => references_at(models(values@), at as nat, n as nat, Seq::empty()) == Ok::<
                Seq<Seq<char>>,
                Error,
            >(views(v@)) && at + n <= values.len(),
            Err(e) => references_at(models(values@), at as nat, n as nat, Seq::empty()) == Err::<
                Seq<Seq<char>>,
                Error,
            >(e),
        },
{
    let mut out: Vec<String> = Vec::new();
    let mut i: usize = 0;
    assert(views(out@) =~= Seq::<Seq<char>>::empty());
    while i < n
        invariant
            i <= n,
            at + i <= values.len(),
            references_at(models(values@), at as nat, n as nat, Seq::empty()) == references_at(
                models(values@),
                (at + i) as nat,
                (n - i) as nat,
                views(out@),
            ),
        decreases n - i,
    {
        let s = next_text(
            values,
            at + i,
            "data-reference",
            "a data reference is not a string",
        )?;
        let ghost before = views(out@);
        out.push(s);
        assert(views(out@) =~= before.push(s@));
        i += 1;
    }
    Ok(out)
}

fn read_reasons(values: &[Value], at: usize, n: usize) -> (r: Result<Vec<ReasonCode>, Error>)
    requires
        at <= values.len(),
    ensures
        match r {
            Ok(v) => reasons_at(models(values@), at as nat, n as nat, Seq::empty()) == Ok::<
                Seq<ReasonCode>,
                Error,
            >(v@) && at + n <= values.len(),
            Err(e) => reasons_at(models(values@), at as nat, n as nat, Seq::empty()) == Err::<
                Seq<ReasonCode>,
                Error,
            >(e),
        },
{
    let mut out: Vec<ReasonCode> = Vec::new();
    let mut i: usize = 0;
    assert(out@ =~= Seq::<ReasonCode>::empty());
    while i < n
        invariant
            i <= n,
            at + i <= values.len(),
            reasons_at(models(values@), at as nat, n as nat, Seq::empty()) == reasons_at(
                models(values@),
                (at + i) as nat,
                (n - i) as nat,
                out@,
            ),
        decreases n - i,
    {
        let v = next(values, at + i, "ReasonCode")?;
        match ReasonCode::from_value(v) {
            Some(c) => out.push(c),
            None => return Err(Error::InvalidValue("a reason code is not a bit string")),
        }
        i += 1;
    }
    Ok(out)
}

fn build_entries(
    indices: &Vec<usize>,
    references: &Vec<String>,
    values: &[Value],
    at: usize,
    reasons: &Vec<ReasonCode>,
) -> (r: Vec<ReportEntry>)
    requires
        at + indices.len() <= values.len(),
    ensures
        views(r@) == entries_of(
            indices@,
            views(references@),
            models(values@).skip(at as int),
            reasons@,
        ),
{
    reveal(entries_of);
    let ghost want = entries_of(
        indices@,
        views(references@),
        models(values@).skip(at as int),
        reasons@,
    );
    let mut out: Vec<ReportEntry> = Vec::new();
    let mut i: usize = 0;
    while i < indices.len()
        invariant
            i <= indices.len(),
            at + indices.len() <= values.len(),
            want == entries_of(
                indices@,
                views(references@),
                models(values@).skip(at as int),
                reasons@,
            ),
            out@.len() == i,
            forall|j: int| 0 <= j < i ==> out@[j]@ == want[j],
        decreases indices.len() - i,
    {
        let reference: Option<String> = if i < references.len() {
            Some(references[i].clone())
        } else {
            None
        };
        let reason: Option<ReasonCode> = if i < reasons.len() {
            Some(reasons[i])
        } else {
            None
        };
        reveal(entries_of);
        let e = ReportEntry {
            index: indices[i],
            reference,
            value: values[at + i].duplicate(),
            reason,
        };
        assert(e@ == want[i as int]);
        out.push(e);
        i += 1;
    }
    assert(views(out@) =~= want);
    out
}

/// The values a list of access results holds, after `acc`. A failed access ends the report.
pub open spec fn result_values(
    results: Seq<AccessResultModel>,
    limits: Limits,
    i: nat,
    acc: Seq<ValueModel>,
) -> Result<Seq<ValueModel>, Error>
    decreases results.len() - i,
{
    if i < results.len() {
        match results[i as int] {
            AccessResultModel::Failure(code) => Err(Error::DataAccess(code)),
            AccessResultModel::Success(t) => match data_of(t) {
                Err(e) => Err(e),
                Ok(d) => match owned(d, limits, 0) {
                    Err(e) => Err(e),
                    Ok(v) => result_values(results, limits, i + 1, acc.push(v)),
                },
            },
        }
    } else {
        Ok(acc)
    }
}

fn after(at: usize, present: bool) -> (r: usize)
    requires
        at < 100,
    ensures
        r == at + one_if(present),
{
    if present {
        at + 1
    } else {
        at
    }
}

fn read_seq_num(values: &[Value], o: OptFlds) -> (r: Result<Option<u32>, Error>)
    ensures
        agrees_opt(r, seq_num_of(models(values@), o)),
{
    reveal(seq_num_of);
    if o.sequence_number {
        Ok(Some(next_counter(values, 2, "SqNum")?))
    } else {
        Ok(None)
    }
}

fn read_time(values: &[Value], o: OptFlds, at: usize) -> (r: Result<Option<EntryTime>, Error>)
    requires
        at == time_pos(o),
    ensures
        r == time_of_entry_of(models(values@), o),
{
    reveal(time_of_entry_of);
    if o.report_time_stamp {
        let v = next(values, at, "TimeOfEntry")?;
        Ok(Some(entry_time(v)?))
    } else {
        Ok(None)
    }
}

fn read_data_set(values: &[Value], o: OptFlds, at: usize) -> (r: Result<Option<String>, Error>)
    requires
        at == data_set_pos(o),
    ensures
        agrees_opt(r, data_set_of(models(values@), o)),
{
    reveal(data_set_of);
    if o.data_set_name {
        Ok(Some(next_text(values, at, "DatSet", "DatSet is not a string")?))
    } else {
        Ok(None)
    }
}

fn read_overflow(values: &[Value], o: OptFlds, at: usize) -> (r: Result<Option<bool>, Error>)
    requires
        at == overflow_pos(o),
    ensures
        agrees_opt(r, buf_ovfl_of(models(values@), o)),
{
    reveal(buf_ovfl_of);
    if o.buffer_overflow {
        Ok(Some(next_bool(values, at, "BufOvfl", "BufOvfl is not a boolean")?))
    } else {
        Ok(None)
    }
}

fn read_entry_id(values: &[Value], o: OptFlds, at: usize) -> (r: Result<Option<Vec<u8>>, Error>)
    requires
        at == entry_id_pos(o),
    ensures
        agrees_opt(r, entry_id_of(models(values@), o)),
{
    reveal(entry_id_of);
    if o.entry_id {
        match next(values, at, "EntryID")? {
            Value::OctetString(b) => Ok(Some(slice_to_vec(b))),
            _ => Err(Error::InvalidValue("EntryID is not an octet string")),
        }
    } else {
        Ok(None)
    }
}

fn read_conf_rev(values: &[Value], o: OptFlds, at: usize) -> (r: Result<Option<u32>, Error>)
    requires
        at == conf_rev_pos(o),
    ensures
        agrees_opt(r, conf_rev_of(models(values@), o)),
{
    reveal(conf_rev_of);
    if o.conf_revision {
        Ok(Some(next_counter(values, at, "ConfRev")?))
    } else {
        Ok(None)
    }
}

fn read_segment(values: &[Value], o: OptFlds, at: usize) -> (r: Result<(Option<u32>, bool), Error>)
    requires
        at == segment_pos(o),
    ensures
        r == segment_of(models(values@), o),
{
    reveal(segment_of);
    if o.segmentation {
        let n: u32 = next_counter(values, at, "SubSeqNum")?;
        let more = next_bool(
            values,
            at + 1,
            "MoreSegmentsFollow",
            "MoreSegmentsFollow is not a boolean",
        )?;
        Ok((Some(n), more))
    } else {
        Ok((None, false))
    }
}

/// The header of a report, without its entries.
fn read_header(values: &[Value]) -> (r: Result<Report, Error>)
    ensures
        match header_of(models(values@)) {
            Err(e) => r == Err::<Report, Error>(e),
            Ok(h) => r matches Ok(m) && m@ == (ReportModel {
                rpt_id: h.rpt_id,
                opt_flds: h.opt_flds,
                seq_num: h.seq_num,
                time_of_entry: h.time_of_entry,
                data_set: h.data_set,
                buf_ovfl: h.buf_ovfl,
                entry_id: h.entry_id,
                conf_rev: h.conf_rev,
                sub_seq_num: h.sub_seq_num,
                more_segments_follow: h.more_segments_follow,
                unused: h.unused,
                inclusion: h.inclusion,
                entries: Seq::empty(),
            }) && inclusion_pos(h.opt_flds) < values.len(),
        },
{
    reveal(header_of);
    let rpt_id = next_text(values, 0, "RptID", "RptID is not a string")?;
    let o = match OptFlds::from_value(next(values, 1, "OptFlds")?) {
        Some(o) => o,
        None => return Err(Error::InvalidValue("OptFlds is not a bit string")),
    };
    let seq_num = read_seq_num(values, o)?;
    let at: usize = after(2, o.sequence_number);
    let time_of_entry = read_time(values, o, at)?;
    let at: usize = after(at, o.report_time_stamp);
    let data_set = read_data_set(values, o, at)?;
    let at: usize = after(at, o.data_set_name);
    let buf_ovfl = read_overflow(values, o, at)?;
    let at: usize = after(at, o.buffer_overflow);
    let entry_id = read_entry_id(values, o, at)?;
    let at: usize = after(at, o.entry_id);
    let conf_rev = read_conf_rev(values, o, at)?;
    let at: usize = after(at, o.conf_revision);
    let (sub_seq_num, more_segments_follow) = read_segment(values, o, at)?;
    let at: usize = after(after(at, o.segmentation), o.segmentation);
    let (unused, inclusion) = match next(values, at, "Inclusion")? {
        Value::BitString { unused, bytes } => (*unused, slice_to_vec(bytes)),
        _ => return Err(Error::InvalidValue("the inclusion field is not a bit string")),
    };
    let r = Report {
        rpt_id,
        opt_flds: o,
        seq_num,
        time_of_entry,
        data_set,
        buf_ovfl,
        entry_id,
        conf_rev,
        sub_seq_num,
        more_segments_follow,
        inclusion: (unused, inclusion),
        entries: Vec::new(),
    };
    assert(r@.entries =~= Seq::<ReportEntryModel>::empty());
    Ok(r)
}

/// Where the entries of a report start.
fn start_of_entries(o: OptFlds) -> (r: usize)
    ensures
        r == inclusion_pos(o) + 1,
{
    let at: usize = after(after(after(2, o.sequence_number), o.report_time_stamp), o.data_set_name);
    let at: usize = after(after(after(at, o.buffer_overflow), o.entry_id), o.conf_revision);
    after(after(at, o.segmentation), o.segmentation) + 1
}

/// The entries that follow a header whose inclusion bit string is this, or what is wrong with
/// them; and where they end.
fn read_entries(
    values: &[Value],
    o: OptFlds,
    start: usize,
    unused: u8,
    inclusion: &Vec<u8>,
) -> (r: Result<(Vec<ReportEntry>, usize), Error>)
    requires
        start == inclusion_pos(o) + 1,
        start <= values.len(),
    ensures
        ({
            let v = models(values@);
            let indices = included(unused, inclusion@);
            let n = indices.len();
            match references_of(v, o, n) {
                Err(e) => r == Err::<(Vec<ReportEntry>, usize), Error>(e),
                Ok(references) => if values_pos(o, n) + n > v.len() {
                    r == Err::<(Vec<ReportEntry>, usize), Error>(Error::NotFound("value"))
                } else {
                    match reasons_of(v, o, n) {
                        Err(e) => r == Err::<(Vec<ReportEntry>, usize), Error>(e),
                        Ok(reasons) => if end_pos(o, n) != v.len() {
                            r == Err::<(Vec<ReportEntry>, usize), Error>(
                                Error::Decode {
                                    reason: DecodeReason::TrailingBytes,
                                    offset: end_pos(o, n) as usize,
                                },
                            )
                        } else {
                            r matches Ok((entries, end)) && end == v.len() && views(entries@)
                                == entries_of(
                                indices,
                                references,
                                v.skip(values_pos(o, n) as int),
                                reasons,
                            )
                        },
                    }
                },
            }
        }),
{
    reveal(references_of);
    reveal(reasons_of);
    let mut at: usize = start;
    let indices = included_indices(unused, inclusion);
    let n: usize = indices.len();
    let mut references: Vec<String> = Vec::new();
    assert(views(references@) =~= Seq::<Seq<char>>::empty());
    if o.data_reference {
        references = read_references(values, at, n)?;
        at += n;
    }
    if n > values.len() - at {
        return Err(Error::NotFound("value"));
    }
    let values_at: usize = at;
    at += n;
    let mut reasons: Vec<ReasonCode> = Vec::new();
    assert(reasons@ =~= Seq::<ReasonCode>::empty());
    if o.reason_for_inclusion {
        reasons = read_reasons(values, at, n)?;
        at += n;
    }
    if at != values.len() {
        return Err(Error::decode(DecodeReason::TrailingBytes, at));
    }
    Ok((build_entries(&indices, &references, values, values_at, &reasons), at))
}

impl Report {
    /// Decode a report from the access results of an `InformationReport`.
    pub fn parse(results: &[AccessResult<'_>], limits: &Limits) -> (r: Result<Report, Error>)
        ensures
            match result_values(views(results@), *limits, 0, Seq::empty()) {
                Err(e) => r == Err::<Report, Error>(e),
                Ok(v) => agrees(r, report_of(v)),
            },
    {
        let mut values: Vec<Value> = Vec::new();
        let ghost all = views(results@);
        let mut i: usize = 0;
        assert(models(values@) =~= Seq::<ValueModel>::empty());
        while i < results.len()
            invariant
                i <= results.len(),
                all == views(results@),
                result_values(all, *limits, 0, Seq::empty()) == result_values(
                    all,
                    *limits,
                    i as nat,
                    models(values@),
                ),
            decreases results.len() - i,
        {
            assert(all[i as int] == results@[i as int]@);
            match &results[i] {
                AccessResult::Success(t) => {
                    let d = DataView::from_tlv(*t)?;
                    let v = d.to_owned(limits)?;
                    let ghost before = models(values@);
                    values.push(v);
                    assert(models(values@) =~= before.push(v@));
                },
                AccessResult::Failure(code) => return Err(Error::DataAccess(*code)),
            }
            i += 1;
        }
        Report::from_values(&values)
    }

    /// Decode a report from already-decoded values.
    ///
    /// Fails when a field the options promised is missing or has the wrong type: guessing would
    /// misalign every value after the first bad field.
    pub fn from_values(values: &[Value]) -> (r: Result<Report, Error>)
        ensures
            agrees(r, report_of(models(values@))),
    {
        let mut report = read_header(values)?;
        let o = report.opt_flds;
        let at: usize = start_of_entries(o);
        let (entries, _) = read_entries(values, o, at, report.inclusion.0, &report.inclusion.1)?;
        report.entries = entries;
        Ok(report)
    }
}

// ---- encoding --------------------------------------------------------------------------

/// What the options promise and a report lacks, first in the order of the fields.
pub open spec fn header_fault(m: ReportModel) -> Option<Error> {
    let o = m.opt_flds;
    if o.sequence_number && m.seq_num is None {
        Some(Error::InvalidValue("OptFlds promises SqNum but the report has none"))
    } else if o.report_time_stamp && m.time_of_entry is None {
        Some(Error::InvalidValue("OptFlds promises TimeOfEntry but the report has none"))
    } else if o.data_set_name && m.data_set is None {
        Some(Error::InvalidValue("OptFlds promises DatSet but the report has none"))
    } else if o.buffer_overflow && m.buf_ovfl is None {
        Some(Error::InvalidValue("OptFlds promises BufOvfl but the report has none"))
    } else if o.entry_id && m.entry_id is None {
        Some(Error::InvalidValue("OptFlds promises EntryID but the report has none"))
    } else if o.conf_revision && m.conf_rev is None {
        Some(Error::InvalidValue("OptFlds promises ConfRev but the report has none"))
    } else if o.segmentation && m.sub_seq_num is None {
        Some(Error::InvalidValue("OptFlds promises SubSeqNum but the report has none"))
    } else {
        None
    }
}

/// Why a report has no values: what its options promise is not there, or its bit string
/// includes another number of members than it has entries.
pub open spec fn report_fault(m: ReportModel) -> Option<Error> {
    if header_fault(m) is Some {
        header_fault(m)
    } else if included(m.unused, m.inclusion).len() != m.entries.len() {
        Some(
            Error::InvalidValue(
                "the inclusion bit string does not match the number of entries",
            ),
        )
    } else if m.opt_flds.data_reference && exists|i: int|
        0 <= i < m.entries.len() && (#[trigger] m.entries[i]).reference is None {
        Some(Error::InvalidValue("OptFlds promises data references but an entry has none"))
    } else if m.opt_flds.reason_for_inclusion && exists|i: int|
        0 <= i < m.entries.len() && (#[trigger] m.entries[i]).reason is None {
        Some(Error::InvalidValue("OptFlds promises reason codes but an entry has none"))
    } else {
        None
    }
}

/// A value where a field is present.
#[verifier::opaque]
pub open spec fn if_present(present: bool, v: ValueModel) -> Seq<ValueModel> {
    if present {
        seq![v]
    } else {
        Seq::empty()
    }
}

proof fn lemma_if_present(present: bool, v: ValueModel)
    ensures
        if_present(present, v).len() == one_if(present),
        present ==> if_present(present, v)[0] == v,
{
    reveal(if_present);
}

/// The header values up to the inclusion bit string.
pub open spec fn header_values(m: ReportModel) -> Seq<ValueModel> {
    let o = m.opt_flds;
    seq![ValueModel::VisibleString(m.rpt_id), opt_flds_value(o)] + if_present(
        o.sequence_number,
        ValueModel::Unsigned(m.seq_num->Some_0 as u64),
    ) + if_present(
        o.report_time_stamp,
        ValueModel::BinaryTime(entry_octets(m.time_of_entry->Some_0)),
    ) + if_present(o.data_set_name, ValueModel::VisibleString(m.data_set->Some_0)) + if_present(
        o.buffer_overflow,
        ValueModel::Boolean(m.buf_ovfl->Some_0),
    ) + if_present(o.entry_id, ValueModel::OctetString(m.entry_id->Some_0)) + if_present(
        o.conf_revision,
        ValueModel::Unsigned(m.conf_rev->Some_0 as u64),
    ) + if_present(o.segmentation, ValueModel::Unsigned(m.sub_seq_num->Some_0 as u64)) + if_present(
        o.segmentation,
        ValueModel::Boolean(m.more_segments_follow),
    ) + seq![ValueModel::BitString { unused: m.unused, bytes: m.inclusion }]
}

/// The references of the entries.
pub open spec fn reference_values(m: ReportModel) -> Seq<ValueModel> {
    if m.opt_flds.data_reference {
        Seq::new(
            m.entries.len(),
            |i: int| ValueModel::VisibleString(m.entries[i].reference->Some_0),
        )
    } else {
        Seq::empty()
    }
}

/// The values of the entries.
pub open spec fn entry_values(m: ReportModel) -> Seq<ValueModel> {
    Seq::new(m.entries.len(), |i: int| m.entries[i].value)
}

/// The reason codes of the entries.
pub open spec fn reason_values(m: ReportModel) -> Seq<ValueModel> {
    if m.opt_flds.reason_for_inclusion {
        Seq::new(m.entries.len(), |i: int| reason_code_value(m.entries[i].reason->Some_0))
    } else {
        Seq::empty()
    }
}

/// The values of a report, in the order of its fields.
pub open spec fn report_values(m: ReportModel) -> Seq<ValueModel> {
    header_values(m) + reference_values(m) + entry_values(m) + reason_values(m)
}

fn push_value(out: &mut Vec<Value>, v: Value)
    ensures
        models(final(out)@) == models(old(out)@).push(v@),
{
    out.push(v);
    assert(models(out@) =~= models(old(out)@).push(v@));
}

fn push_if(out: &mut Vec<Value>, present: bool, v: Option<Value>, missing: &'static str) -> (r:
    Result<(), Error>)
    ensures
        if present && v is None {
            r == Err::<(), Error>(Error::InvalidValue(missing))
        } else {
            r is Ok && models(final(out)@) == models(old(out)@) + if_present(
                present,
                v->Some_0@,
            )
        },
{
    reveal(if_present);
    if present {
        match v {
            Some(v) => {
                push_value(out, v);
                assert(models(out@) =~= models(old(out)@) + if_present(present, v@));
                Ok(())
            },
            None => Err(Error::InvalidValue(missing)),
        }
    } else {
        assert(models(out@) =~= models(old(out)@) + if_present(present, v->Some_0@));
        Ok(())
    }
}

fn opt_counter(n: Option<u32>) -> (r: Option<Value>)
    ensures
        opt_view(r) == (match n {
            Some(n) => Some(ValueModel::Unsigned(n as u64)),
            None => None,
        }),
{
    match n {
        Some(n) => Some(Value::Unsigned(n as u64)),
        None => None,
    }
}

fn opt_time(t: Option<EntryTime>) -> (r: Option<Value>)
    ensures
        opt_view(r) == (match t {
            Some(t) => Some(ValueModel::BinaryTime(entry_octets(t))),
            None => None,
        }),
{
    match t {
        Some(t) => Some(Value::BinaryTime(t.to_octets())),
        None => None,
    }
}

fn opt_string(s: &Option<String>) -> (r: Option<Value>)
    ensures
        opt_view(r) == (match opt_view(*s) {
            Some(s) => Some(ValueModel::VisibleString(s)),
            None => None,
        }),
{
    match s {
        Some(s) => Some(Value::VisibleString(s.clone())),
        None => None,
    }
}

fn opt_boolean(b: Option<bool>) -> (r: Option<Value>)
    ensures
        opt_view(r) == (match b {
            Some(b) => Some(ValueModel::Boolean(b)),
            None => None,
        }),
{
    match b {
        Some(b) => Some(Value::Boolean(b)),
        None => None,
    }
}

fn opt_octets(b: &Option<Vec<u8>>) -> (r: Option<Value>)
    ensures
        opt_view(r) == (match opt_view(*b) {
            Some(b) => Some(ValueModel::OctetString(b)),
            None => None,
        }),
{
    match b {
        Some(b) => Some(Value::OctetString(slice_to_vec(b))),
        None => None,
    }
}

impl Report {
    fn push_header(&self, out: &mut Vec<Value>) -> (r: Result<(), Error>)
        requires
            old(out)@.len() == 0,
        ensures
            match header_fault(self@) {
                None => r is Ok && models(final(out)@) == header_values(self@),
                Some(f) => r == Err::<(), Error>(f),
            },
    {
        reveal(if_present);
        let o = self.opt_flds;
        assert(models(out@) =~= Seq::<ValueModel>::empty());
        push_value(out, Value::VisibleString(self.rpt_id.clone()));
        push_value(out, o.to_value());
        assert(models(out@) =~= seq![ValueModel::VisibleString(self@.rpt_id), opt_flds_value(o)]);
        push_if(
            out,
            o.sequence_number,
            opt_counter(self.seq_num),
            "OptFlds promises SqNum but the report has none",
        )?;
        push_if(
            out,
            o.report_time_stamp,
            opt_time(self.time_of_entry),
            "OptFlds promises TimeOfEntry but the report has none",
        )?;
        push_if(
            out,
            o.data_set_name,
            opt_string(&self.data_set),
            "OptFlds promises DatSet but the report has none",
        )?;
        push_if(
            out,
            o.buffer_overflow,
            opt_boolean(self.buf_ovfl),
            "OptFlds promises BufOvfl but the report has none",
        )?;
        push_if(
            out,
            o.entry_id,
            opt_octets(&self.entry_id),
            "OptFlds promises EntryID but the report has none",
        )?;
        push_if(
            out,
            o.conf_revision,
            opt_counter(self.conf_rev),
            "OptFlds promises ConfRev but the report has none",
        )?;
        push_if(
            out,
            o.segmentation,
            opt_counter(self.sub_seq_num),
            "OptFlds promises SubSeqNum but the report has none",
        )?;
        push_if(out, o.segmentation, Some(Value::Boolean(self.more_segments_follow)), "")?;
        let bits = Value::BitString {
            unused: self.inclusion.0,
            bytes: slice_to_vec(&self.inclusion.1),
        };
        let ghost before = models(out@);
        push_value(out, bits);
        assert(models(out@) =~= before + seq![
            ValueModel::BitString { unused: self@.unused, bytes: self@.inclusion },
        ]);
        Ok(())
    }

    fn push_references(&self, out: &mut Vec<Value>) -> (r: Result<(), Error>)
        ensures
            match r {
                Ok(_) => (forall|i: int|
                    0 <= i < self@.entries.len() ==> (#[trigger] self@.entries[i]).reference
                        is Some) && models(final(out)@) == models(old(out)@) + Seq::new(
                    self@.entries.len(),
                    |i: int| ValueModel::VisibleString(self@.entries[i].reference->Some_0),
                ),
                Err(e) => (exists|i: int|
                    0 <= i < self@.entries.len() && (#[trigger] self@.entries[i]).reference
                        is None) && e == Error::InvalidValue(
                    "OptFlds promises data references but an entry has none",
                ),
            },
    {
        let ghost m = self@;
        let ghost all = Seq::new(
            m.entries.len(),
            |i: int| ValueModel::VisibleString(m.entries[i].reference->Some_0),
        );
        let mut i: usize = 0;
        assert(models(old(out)@) + all.take(0) =~= models(out@));
        while i < self.entries.len()
            invariant
                i <= self.entries.len(),
                m == self@,
                all == Seq::new(
                    m.entries.len(),
                    |i: int| ValueModel::VisibleString(m.entries[i].reference->Some_0),
                ),
                forall|j: int| 0 <= j < i ==> (#[trigger] m.entries[j]).reference is Some,
                models(out@) == models(old(out)@) + all.take(i as int),
            decreases self.entries.len() - i,
        {
            assert(m.entries[i as int] == self.entries@[i as int]@);
            match &self.entries[i].reference {
                Some(s) => {
                    push_value(out, Value::VisibleString(s.clone()));
                    assert(all.take(i + 1) =~= all.take(i as int).push(all[i as int]));
                    assert(models(out@) =~= models(old(out)@) + all.take(i + 1));
                },
                None => return Err(
                    Error::InvalidValue(
                        "OptFlds promises data references but an entry has none",
                    ),
                ),
            }
            i += 1;
        }
        assert(all.take(i as int) =~= all);
        Ok(())
    }

    fn push_reasons(&self, out: &mut Vec<Value>) -> (r: Result<(), Error>)
        ensures
            match r {
                Ok(_) => (forall|i: int|
                    0 <= i < self@.entries.len() ==> (#[trigger] self@.entries[i]).reason is Some)
                    && models(final(out)@) == models(old(out)@) + Seq::new(
                    self@.entries.len(),
                    |i: int| reason_code_value(self@.entries[i].reason->Some_0),
                ),
                Err(e) => (exists|i: int|
                    0 <= i < self@.entries.len() && (#[trigger] self@.entries[i]).reason is None)
                    && e == Error::InvalidValue(
                    "OptFlds promises reason codes but an entry has none",
                ),
            },
    {
        let ghost m = self@;
        let ghost all = Seq::new(
            m.entries.len(),
            |i: int| reason_code_value(m.entries[i].reason->Some_0),
        );
        let mut i: usize = 0;
        assert(models(old(out)@) + all.take(0) =~= models(out@));
        while i < self.entries.len()
            invariant
                i <= self.entries.len(),
                m == self@,
                all == Seq::new(
                    m.entries.len(),
                    |i: int| reason_code_value(m.entries[i].reason->Some_0),
                ),
                forall|j: int| 0 <= j < i ==> (#[trigger] m.entries[j]).reason is Some,
                models(out@) == models(old(out)@) + all.take(i as int),
            decreases self.entries.len() - i,
        {
            assert(m.entries[i as int] == self.entries@[i as int]@);
            match self.entries[i].reason {
                Some(c) => {
                    push_value(out, c.to_value());
                    assert(all.take(i + 1) =~= all.take(i as int).push(all[i as int]));
                    assert(models(out@) =~= models(old(out)@) + all.take(i + 1));
                },
                None => return Err(
                    Error::InvalidValue("OptFlds promises reason codes but an entry has none"),
                ),
            }
            i += 1;
        }
        assert(all.take(i as int) =~= all);
        Ok(())
    }

    fn push_entry_values(&self, out: &mut Vec<Value>)
        ensures
            models(final(out)@) == models(old(out)@) + entry_values(self@),
    {
        let ghost all = entry_values(self@);
        let mut i: usize = 0;
        assert(models(old(out)@) + all.take(0) =~= models(out@));
        while i < self.entries.len()
            invariant
                i <= self.entries.len(),
                all == entry_values(self@),
                models(out@) == models(old(out)@) + all.take(i as int),
            decreases self.entries.len() - i,
        {
            push_value(out, self.entries[i].value.duplicate());
            assert(all.take(i + 1) =~= all.take(i as int).push(all[i as int]));
            i += 1;
            assert(models(out@) =~= models(old(out)@) + all.take(i as int));
        }
        assert(all.take(i as int) =~= all);
    }

    /// The values of this report, in the order of its fields.
    ///
    /// A report whose options disagree with its own fields is refused.
    pub fn to_values(&self) -> (r: Result<Vec<Value>, Error>)
        ensures
            match report_fault(self@) {
                None => r matches Ok(v) && models(v@) == report_values(self@),
                Some(f) => r == Err::<Vec<Value>, Error>(f),
            },
    {
        let mut out: Vec<Value> = Vec::new();
        self.push_header(&mut out)?;
        if included_indices(self.inclusion.0, &self.inclusion.1).len() != self.entries.len() {
            return Err(
                Error::InvalidValue(
                    "the inclusion bit string does not match the number of entries",
                ),
            );
        }
        if self.opt_flds.data_reference {
            self.push_references(&mut out)?;
        }
        self.push_entry_values(&mut out);
        if self.opt_flds.reason_for_inclusion {
            self.push_reasons(&mut out)?;
        }
        assert(models(out@) =~= report_values(self@));
        Ok(out)
    }

    /// How many members the data set has, as the inclusion bit string reports it.
    pub fn data_set_len(&self) -> (r: usize)
        ensures
            r == member_count(self@.unused, self@.inclusion),
    {
        inclusion_len(self.inclusion.0, &self.inclusion.1)
    }

    /// True when this is one segment of a longer report and more are coming.
    pub fn is_partial(&self) -> (r: bool)
        ensures
            r == self@.more_segments_follow,
    {
        self.more_segments_follow
    }
}

// ---- building and joining inclusion bit strings ----------------------------------------

/// Setting a bit of an octet sets that bit and no other.
proof fn lemma_set_bit(b: u8, k: nat)
    requires
        k < 8,
    ensures
        forall|j: nat|
            j < 8 ==> (((b | weight(k) as u8) as nat / #[trigger] weight(j)) % 2 == 1 <==> (j == k
                || (b as nat / weight(j)) % 2 == 1)),
{
    let w = weight(k) as u8;
    assert((((b | w) / 128u8) % 2 == 1) == (w == 128 || (b / 128u8) % 2 == 1)) by (bit_vector)
        requires
            w == 1 || w == 2 || w == 4 || w == 8 || w == 16 || w == 32 || w == 64 || w == 128,
    ;
    assert((((b | w) / 64u8) % 2 == 1) == (w == 64 || (b / 64u8) % 2 == 1)) by (bit_vector)
        requires
            w == 1 || w == 2 || w == 4 || w == 8 || w == 16 || w == 32 || w == 64 || w == 128,
    ;
    assert((((b | w) / 32u8) % 2 == 1) == (w == 32 || (b / 32u8) % 2 == 1)) by (bit_vector)
        requires
            w == 1 || w == 2 || w == 4 || w == 8 || w == 16 || w == 32 || w == 64 || w == 128,
    ;
    assert((((b | w) / 16u8) % 2 == 1) == (w == 16 || (b / 16u8) % 2 == 1)) by (bit_vector)
        requires
            w == 1 || w == 2 || w == 4 || w == 8 || w == 16 || w == 32 || w == 64 || w == 128,
    ;
    assert((((b | w) / 8u8) % 2 == 1) == (w == 8 || (b / 8u8) % 2 == 1)) by (bit_vector)
        requires
            w == 1 || w == 2 || w == 4 || w == 8 || w == 16 || w == 32 || w == 64 || w == 128,
    ;
    assert((((b | w) / 4u8) % 2 == 1) == (w == 4 || (b / 4u8) % 2 == 1)) by (bit_vector)
        requires
            w == 1 || w == 2 || w == 4 || w == 8 || w == 16 || w == 32 || w == 64 || w == 128,
    ;
    assert((((b | w) / 2u8) % 2 == 1) == (w == 2 || (b / 2u8) % 2 == 1)) by (bit_vector)
        requires
            w == 1 || w == 2 || w == 4 || w == 8 || w == 16 || w == 32 || w == 64 || w == 128,
    ;
    assert((((b | w) / 1u8) % 2 == 1) == (w == 1 || (b / 1u8) % 2 == 1)) by (bit_vector)
        requires
            w == 1 || w == 2 || w == 4 || w == 8 || w == 16 || w == 32 || w == 64 || w == 128,
    ;
    assert forall|j: nat| j < 8 implies (((b | w) as nat / #[trigger] weight(j)) % 2 == 1 <==> (j
        == k || (b as nat / weight(j)) % 2 == 1)) by {}
}

/// The bits of a disjunction are those of either octet.
proof fn lemma_or_bits(a: u8, b: u8)
    ensures
        forall|j: nat|
            j < 8 ==> (((a | b) as nat / #[trigger] weight(j)) % 2 == 1 <==> ((a as nat / weight(j))
                % 2 == 1 || (b as nat / weight(j)) % 2 == 1)),
{
    assert((((a | b) / 128u8) % 2 == 1) == (((a / 128u8) % 2 == 1) || ((b / 128u8) % 2 == 1)))
        by (bit_vector);
    assert((((a | b) / 64u8) % 2 == 1) == (((a / 64u8) % 2 == 1) || ((b / 64u8) % 2 == 1)))
        by (bit_vector);
    assert((((a | b) / 32u8) % 2 == 1) == (((a / 32u8) % 2 == 1) || ((b / 32u8) % 2 == 1)))
        by (bit_vector);
    assert((((a | b) / 16u8) % 2 == 1) == (((a / 16u8) % 2 == 1) || ((b / 16u8) % 2 == 1)))
        by (bit_vector);
    assert((((a | b) / 8u8) % 2 == 1) == (((a / 8u8) % 2 == 1) || ((b / 8u8) % 2 == 1)))
        by (bit_vector);
    assert((((a | b) / 4u8) % 2 == 1) == (((a / 4u8) % 2 == 1) || ((b / 4u8) % 2 == 1)))
        by (bit_vector);
    assert((((a | b) / 2u8) % 2 == 1) == (((a / 2u8) % 2 == 1) || ((b / 2u8) % 2 == 1)))
        by (bit_vector);
    assert((((a | b) / 1u8) % 2 == 1) == (((a / 1u8) % 2 == 1) || ((b / 1u8) % 2 == 1)))
        by (bit_vector);
    assert forall|j: nat| j < 8 implies (((a | b) as nat / #[trigger] weight(j)) % 2 == 1 <==> ((
    a as nat / weight(j)) % 2 == 1 || (b as nat / weight(j)) % 2 == 1)) by {}
}

/// How many octets hold `n` bits.
pub open spec fn octets_for(n: nat) -> nat {
    (n + 7) / 8
}

fn zero_octets(n: usize) -> (r: Vec<u8>)
    ensures
        r@.len() == n,
        forall|i: int| 0 <= i < n ==> r@[i] == 0,
{
    let mut out: Vec<u8> = Vec::new();
    while out.len() < n
        invariant
            out@.len() <= n,
            forall|i: int| 0 <= i < out@.len() ==> out@[i] == 0,
        decreases n - out.len(),
    {
        out.push(0);
    }
    out
}

/// Two bit strings joined: the bits of both, over the longer one's octets.
pub open spec fn joined_bits(a: Seq<u8>, b: Seq<u8>) -> Seq<u8> {
    Seq::new(
        if a.len() >= b.len() {
            a.len()
        } else {
            b.len()
        },
        |i: int|
            if i < a.len() && i < b.len() {
                a[i] | b[i]
            } else if i < a.len() {
                a[i]
            } else {
                b[i]
            },
    )
}

/// A member is in the joined bit string exactly when it is in one of the two.
pub proof fn lemma_joined_bits(a: Seq<u8>, b: Seq<u8>, n: nat)
    ensures
        bit(joined_bits(a, b), n) <==> bit(a, n) || bit(b, n),
{
    let i = (n / 8) as int;
    if i < a.len() && i < b.len() {
        lemma_or_bits(a[i], b[i]);
        assert(n % 8 < 8);
    }
}

impl Report {
    /// The inclusion bit string for `total` data-set members of which `included` are present.
    pub fn inclusion_for(total: usize, included: &[usize]) -> (r: (u8, Vec<u8>))
        ensures
            r.1@.len() == octets_for(total as nat),
            r.0 == 8 * r.1@.len() - total,
            forall|n: nat|
                #[trigger] bit(r.1@, n) <==> n < total && exists|j: int|
                    0 <= j < included@.len() && included@[j] == n,
    {
        let octets: usize = total / 8 + if total % 8 == 0 { 0 } else { 1 };
        let unused: u8 = ((8 - total % 8) % 8) as u8;
        let mut bytes = zero_octets(octets);
        let mut i: usize = 0;
        assert(forall|n: nat| !#[trigger] bit(bytes@, n)) by {
            assert(forall|w: nat| w > 0 ==> #[trigger] (0nat / w) == 0) by (nonlinear_arith);
        }
        while i < included.len()
            invariant
                i <= included.len(),
                octets == octets_for(total as nat),
                bytes@.len() == octets,
                forall|n: nat|
                    #[trigger] bit(bytes@, n) <==> n < total && exists|j: int|
                        0 <= j < i && included@[j] == n,
            decreases included.len() - i,
        {
            let m: usize = included[i];
            let ghost before = bytes@;
            if m < total {
                let at: usize = m / 8;
                let w: u8 = weight_of(m % 8);
                let b: u8 = bytes[at] | w;
                proof {
                    lemma_set_bit(bytes@[at as int], (m % 8) as nat);
                }
                bytes.set(at, b);
                assert forall|n: nat| #[trigger] bit(bytes@, n) <==> (n == m || bit(before, n)) by {
                    assert(n % 8 < 8);
                }
            }
            assert forall|n: nat| #[trigger] bit(bytes@, n) <==> n < total && exists|j: int|
                0 <= j < i + 1 && included@[j] == n by {
                assert(bit(before, n) <==> n < total && exists|j: int|
                    0 <= j < i && included@[j] == n);
                if n == m && m < total {
                    assert(included@[i as int] == n);
                }
            }
            i += 1;
        }
        (unused, bytes)
    }
}

// ---- entries in order ------------------------------------------------------------------

/// Where an entry goes: behind every entry whose index is not above its own, counting from the
/// end.
pub open spec fn slot(s: Seq<ReportEntryModel>, e: ReportEntryModel) -> nat
    decreases s.len(),
{
    if s.len() == 0 {
        0
    } else if s.last().index <= e.index {
        s.len()
    } else {
        slot(s.drop_last(), e)
    }
}

/// Entries in the order of their indices; entries of one index keep their order.
pub open spec fn in_order(s: Seq<ReportEntryModel>) -> Seq<ReportEntryModel>
    decreases s.len(),
{
    if s.len() == 0 {
        Seq::empty()
    } else {
        let front = in_order(s.drop_last());
        front.insert(slot(front, s.last()) as int, s.last())
    }
}

proof fn lemma_slot_bound(s: Seq<ReportEntryModel>, e: ReportEntryModel)
    ensures
        slot(s, e) <= s.len(),
        forall|i: int| slot(s, e) <= i < s.len() ==> (#[trigger] s[i]).index > e.index,
        slot(s, e) > 0 ==> s[slot(s, e) - 1].index <= e.index,
    decreases s.len(),
{
    if s.len() > 0 && s.last().index > e.index {
        lemma_slot_bound(s.drop_last(), e);
        assert forall|i: int| slot(s, e) <= i < s.len() implies (#[trigger] s[i]).index
            > e.index by {
            if i < s.len() - 1 {
                assert(s.drop_last()[i] == s[i]);
            }
        }
    }
}

/// Ordering entries orders them, and neither loses nor adds one.
pub proof fn lemma_in_order(s: Seq<ReportEntryModel>)
    ensures
        in_order(s).len() == s.len(),
        forall|i: int, j: int|
            0 <= i <= j < s.len() ==> (#[trigger] in_order(s)[i]).index <= (#[trigger] in_order(
                s,
            )[j]).index,
        in_order(s).to_multiset() == s.to_multiset(),
    decreases s.len(),
{
    broadcast use vstd::seq_lib::group_to_multiset_ensures;

    if s.len() > 0 {
        let front = in_order(s.drop_last());
        let e = s.last();
        lemma_in_order(s.drop_last());
        lemma_slot_bound(front, e);
        let k = slot(front, e) as int;
        let out = in_order(s);
        assert forall|i: int, j: int| 0 <= i <= j < s.len() implies (#[trigger] out[i]).index <= (
        #[trigger] out[j]).index by {
            let fi = if i < k { i } else { i - 1 };
            let fj = if j < k { j } else { j - 1 };
            if i != k && j != k {
                assert(front[fi].index <= front[fj].index);
            } else if i == k && j > k {
                assert(front[j - 1].index > e.index);
            } else if j == k && i < k {
                assert(front[i].index <= front[k - 1].index);
            }
        }
        assert(s.drop_last().push(e) =~= s);
        assert(front.insert(k, e).to_multiset() =~= front.to_multiset().insert(e));
    } else {
        assert(in_order(s) =~= s);
    }
}

fn order_entries(entries: Vec<ReportEntry>) -> (r: Vec<ReportEntry>)
    ensures
        views(r@) == in_order(views(entries@)),
{
    let mut rest = entries;
    let mut out: Vec<ReportEntry> = Vec::new();
    let ghost all = views(rest@);
    let ghost mut done: nat = 0;
    assert(all.take(0) =~= Seq::<ReportEntryModel>::empty());
    assert(views(out@) =~= in_order(all.take(0)));
    while rest.len() > 0
        invariant
            done + rest@.len() == all.len(),
            views(rest@) == all.skip(done as int),
            views(out@) == in_order(all.take(done as int)),
        decreases rest.len(),
    {
        let ghost held = rest@;
        let e = rest.remove(0);
        let ghost front = views(out@);
        assert(front.take(front.len() as int) =~= front);
        assert(e@ == all[done as int]) by {
            assert(all.skip(done as int)[0] == all[done as int]);
        }
        let mut j: usize = out.len();
        while j > 0 && out[j - 1].index > e.index
            invariant
                j <= out.len(),
                front == views(out@),
                slot(front, e@) == slot(front.take(j as int), e@),
            decreases j,
        {
            assert(front[j - 1] == out@[j - 1]@);
            assert(front.take(j as int).drop_last() =~= front.take(j - 1));
            j -= 1;
        }
        proof {
            if j > 0 {
                assert(front.take(j as int).last() == out@[j - 1]@);
            }
            assert(slot(front, e@) == j);
        }
        out.insert(j, e);
        assert(views(out@) =~= front.insert(j as int, e@));
        proof {
            assert(all.take(done + 1int).drop_last() =~= all.take(done as int));
            assert forall|i: int| 0 <= i < rest@.len() implies views(rest@)[i] == all.skip(
                done + 1int,
            )[i] by {
                assert(rest@[i] == held[i + 1]);
                assert(views(held)[i + 1] == all.skip(done as int)[i + 1]);
            }
            assert(views(rest@) =~= all.skip(done + 1int));
            done = done + 1;
        }
    }
    assert(all.take(done as int) =~= all);
    out
}

/// A report with a later segment folded in.
pub open spec fn merged(whole: ReportModel, segment: ReportModel) -> ReportModel {
    ReportModel {
        unused: if segment.inclusion.len() > whole.inclusion.len() {
            segment.unused
        } else {
            whole.unused
        },
        inclusion: joined_bits(whole.inclusion, segment.inclusion),
        entries: in_order(whole.entries + segment.entries),
        sub_seq_num: segment.sub_seq_num,
        buf_ovfl: if segment.buf_ovfl == Some(true) {
            Some(true)
        } else {
            whole.buf_ovfl
        },
        ..whole
    }
}

fn join_bits(a: &Vec<u8>, b: &Vec<u8>) -> (r: Vec<u8>)
    ensures
        r@ == joined_bits(a@, b@),
{
    let n: usize = if a.len() >= b.len() {
        a.len()
    } else {
        b.len()
    };
    let mut out: Vec<u8> = Vec::new();
    let mut i: usize = 0;
    while i < n
        invariant
            i <= n,
            n == joined_bits(a@, b@).len(),
            out@ == joined_bits(a@, b@).take(i as int),
        decreases n - i,
    {
        let v: u8 = if i < a.len() && i < b.len() {
            a[i] | b[i]
        } else if i < a.len() {
            a[i]
        } else {
            b[i]
        };
        out.push(v);
        i += 1;
        assert(out@ =~= joined_bits(a@, b@).take(i as int));
    }
    assert(out@ =~= joined_bits(a@, b@));
    out
}

fn merge(whole: Report, segment: Report) -> (r: Report)
    ensures
        r@ == merged(whole@, segment@),
{
    let mut r = whole;
    let longer = segment.inclusion.1.len() > r.inclusion.1.len();
    let bits = join_bits(&r.inclusion.1, &segment.inclusion.1);
    let unused: u8 = if longer {
        segment.inclusion.0
    } else {
        r.inclusion.0
    };
    r.inclusion = (unused, bits);
    let mut entries = r.entries;
    let mut more = segment.entries;
    let ghost a = views(entries@);
    let ghost b = views(more@);
    entries.append(&mut more);
    assert(views(entries@) =~= a + b);
    r.entries = order_entries(entries);
    r.sub_seq_num = segment.sub_seq_num;
    if let Some(true) = segment.buf_ovfl {
        r.buf_ovfl = Some(true);
    }
    r
}

// ---- the assembler ---------------------------------------------------------------------

/// What an assembler had to throw away.
#[derive(Clone, Copy, Debug, Default, PartialEq, Eq, Structural)]
pub struct AssemblerStats {
    /// Reports completed from more than one segment.
    pub reassembled: u64,
    /// Segment runs abandoned because a segment number was skipped or repeated.
    pub out_of_order: u64,
    /// Segment runs evicted because too many reports were in flight at once.
    pub evicted: u64,
    /// Segment runs abandoned because one report grew past the entry bound.
    pub oversized: u64,
}

/// A report some of whose segments have arrived.
#[derive(Debug)]
struct Pending {
    /// The number the next segment has to carry.
    next_sub_seq: u32,
    /// What has arrived so far.
    report: Report,
}

/// A report some of whose segments have arrived.
pub struct PendingModel {
    /// The number the next segment has to carry.
    pub next_sub_seq: u32,
    /// What has arrived so far.
    pub report: ReportModel,
}

impl View for Pending {
    type V = PendingModel;

    closed spec fn view(&self) -> PendingModel {
        PendingModel { next_sub_seq: self.next_sub_seq, report: self.report@ }
    }
}

/// Joins the segments of a segmented report back into one report.
///
/// Each segment carries the same `RptID` and `SqNum`, its own `SubSeqNum`, and an inclusion bit
/// string naming the members it carries. An unsegmented report passes straight through. Two
/// bounds hold: on the number of reports held at once, and on the entries of each.
#[derive(Debug)]
pub struct ReportAssembler {
    /// The reports some of whose segments have arrived. A new one goes to the end, and the last
    /// takes the place of one that is complete or abandoned.
    partial: Vec<Pending>,
    /// How many of them may be held at once.
    capacity: usize,
    /// How many entries one of them may reach.
    max_entries: usize,
    /// The counters.
    stats: AssemblerStats,
}

/// What a [`ReportAssembler`] stands for.
pub struct AssemblerModel {
    pub partial: Seq<PendingModel>,
    pub capacity: usize,
    pub max_entries: usize,
    pub stats: AssemblerStats,
}

impl View for ReportAssembler {
    type V = AssemblerModel;

    closed spec fn view(&self) -> AssemblerModel {
        AssemblerModel {
            partial: views(self.partial@),
            capacity: self.capacity,
            max_entries: self.max_entries,
            stats: self.stats,
        }
    }
}

/// A segment number one higher, stopping at its end.
pub open spec fn segment_after(n: u32) -> u32 {
    if n == u32::MAX {
        n
    } else {
        (n + 1) as u32
    }
}

/// Whether two segments belong to one report.
pub open spec fn same_run(a: ReportModel, b: ReportModel) -> bool {
    a.rpt_id == b.rpt_id && a.seq_num == b.seq_num
}

/// The first pending report, from `i` on, that a segment belongs to.
pub open spec fn find_run(partial: Seq<PendingModel>, r: ReportModel, i: nat) -> Option<nat>
    decreases partial.len() - i,
{
    if i < partial.len() {
        if same_run(partial[i as int].report, r) {
            Some(i)
        } else {
            find_run(partial, r, i + 1)
        }
    } else {
        None
    }
}

/// A sequence without its `i`-th element, the last one in its place.
pub open spec fn swap_out<T>(s: Seq<T>, i: int) -> Seq<T> {
    s.update(i, s.last()).drop_last()
}

/// The number of a segment.
pub open spec fn segment_number(r: ReportModel) -> u32 {
    match r.sub_seq_num {
        Some(n) => n,
        None => 0,
    }
}

/// A segment that continues no pending report is dropped unless its number is zero. A first one
/// is a whole report if nothing follows it, and the start of a run otherwise.
pub open spec fn started(s: AssemblerModel, r: ReportModel) -> (
    AssemblerModel,
    Option<ReportModel>,
) {
    if segment_number(r) != 0 {
        (
            AssemblerModel {
                stats: AssemblerStats { out_of_order: bump(s.stats.out_of_order), ..s.stats },
                ..s
            },
            None,
        )
    } else if !r.more_segments_follow {
        (s, Some(r))
    } else if r.entries.len() > s.max_entries {
        (
            AssemblerModel {
                stats: AssemblerStats { oversized: bump(s.stats.oversized), ..s.stats },
                ..s
            },
            None,
        )
    } else if s.partial.len() >= s.capacity {
        (
            AssemblerModel {
                partial: s.partial.skip(1).push(PendingModel { next_sub_seq: 1, report: r }),
                stats: AssemblerStats { evicted: bump(s.stats.evicted), ..s.stats },
                ..s
            },
            None,
        )
    } else {
        (
            AssemblerModel {
                partial: s.partial.push(PendingModel { next_sub_seq: 1, report: r }),
                ..s
            },
            None,
        )
    }
}

/// What feeding a report to an assembler does, and gives.
pub open spec fn assembled(s: AssemblerModel, r: ReportModel) -> (
    AssemblerModel,
    Option<ReportModel>,
) {
    if !r.opt_flds.segmentation {
        (s, Some(r))
    } else {
        match find_run(s.partial, r, 0) {
            None => started(s, r),
            Some(i) => {
                let p = s.partial[i as int];
                if segment_number(r) != p.next_sub_seq {
                    started(
                        AssemblerModel {
                            partial: swap_out(s.partial, i as int),
                            stats: AssemblerStats {
                                out_of_order: bump(s.stats.out_of_order),
                                ..s.stats
                            },
                            ..s
                        },
                        r,
                    )
                } else if p.report.entries.len() + r.entries.len() > s.max_entries {
                    (
                        AssemblerModel {
                            partial: swap_out(s.partial, i as int),
                            stats: AssemblerStats { oversized: bump(s.stats.oversized), ..s.stats },
                            ..s
                        },
                        None,
                    )
                } else {
                    let m = merged(p.report, r);
                    if r.more_segments_follow {
                        (
                            AssemblerModel {
                                partial: s.partial.update(
                                    i as int,
                                    PendingModel {
                                        next_sub_seq: segment_after(segment_number(r)),
                                        report: m,
                                    },
                                ),
                                ..s
                            },
                            None,
                        )
                    } else {
                        (
                            AssemblerModel {
                                partial: swap_out(s.partial, i as int),
                                stats: AssemblerStats {
                                    reassembled: bump(s.stats.reassembled),
                                    ..s.stats
                                },
                                ..s
                            },
                            Some(ReportModel { more_segments_follow: false, ..m }),
                        )
                    }
                }
            },
        }
    }
}

/// Both bounds of an assembler: on the reports it holds, and on the entries of each.
pub open spec fn bounded(s: AssemblerModel) -> bool {
    &&& 1 <= s.capacity
    &&& s.partial.len() <= s.capacity
    &&& forall|i: int|
        0 <= i < s.partial.len() ==> (#[trigger] s.partial[i]).report.entries.len()
            <= s.max_entries
}

proof fn lemma_find_run(partial: Seq<PendingModel>, r: ReportModel, i: nat)
    ensures
        find_run(partial, r, i) matches Some(k) ==> i <= k < partial.len(),
    decreases partial.len() - i,
{
    if i < partial.len() {
        lemma_find_run(partial, r, i + 1);
    }
}

/// No report, however it is segmented, makes an assembler exceed its bounds.
pub proof fn lemma_assembler_bounded(s: AssemblerModel, r: ReportModel)
    requires
        bounded(s),
    ensures
        bounded(assembled(s, r).0),
        assembled(s, r).0.capacity == s.capacity,
        assembled(s, r).0.max_entries == s.max_entries,
{
    lemma_find_run(s.partial, r, 0);
    if let Some(i) = find_run(s.partial, r, 0) {
        lemma_in_order(s.partial[i as int].report.entries + r.entries);
    }
}

/// An unsegmented report, and a first segment that is its own last and continues no other, pass
/// straight through.
pub proof fn lemma_assembler_passes(s: AssemblerModel, r: ReportModel)
    requires
        !r.opt_flds.segmentation || (!r.more_segments_follow && segment_number(r) == 0 && find_run(
            s.partial,
            r,
            0,
        ) is None),
    ensures
        assembled(s, r) == (s, Some(r)),
{
}

/// A segmented report is joined before it is delivered, or not delivered at all: what comes out
/// is a first segment that is also the last, or the last segment of a run joined to every one
/// before it.
pub proof fn lemma_joined_or_nothing(s: AssemblerModel, r: ReportModel)
    requires
        r.opt_flds.segmentation,
    ensures
        assembled(s, r).1 matches Some(x) ==> {
            &&& !r.more_segments_follow
            &&& !x.more_segments_follow
            &&& (segment_number(r) == 0 && x == r) || (find_run(s.partial, r, 0) matches Some(i)
                && s.partial[i as int].next_sub_seq == segment_number(r) && x == (ReportModel {
                more_segments_follow: false,
                ..merged(s.partial[i as int].report, r)
            }))
        },
{
}

/// A segment that does not carry the next number of its run ends the run, and begins a new one
/// only where its number is zero.
pub proof fn lemma_gap_abandons_run(s: AssemblerModel, r: ReportModel)
    requires
        r.opt_flds.segmentation,
        find_run(s.partial, r, 0) matches Some(i) && s.partial[i as int].next_sub_seq
            != segment_number(r),
        segment_number(r) != 0,
    ensures
        assembled(s, r).1 is None,
        assembled(s, r).0.partial.len() == s.partial.len() - 1,
{
    lemma_find_run(s.partial, r, 0);
}

/// The first `n` segments of a report joined, at least one.
pub open spec fn joined(segments: Seq<ReportModel>, n: nat) -> ReportModel
    decreases n,
{
    if n <= 1 {
        segments[0]
    } else {
        merged(joined(segments, (n - 1) as nat), segments[n - 1])
    }
}

/// An assembler after the first `n` segments.
pub open spec fn fed(s: AssemblerModel, segments: Seq<ReportModel>, n: nat) -> AssemblerModel
    decreases n,
{
    if n == 0 {
        s
    } else {
        assembled(fed(s, segments, (n - 1) as nat), segments[n - 1]).0
    }
}

/// How many entries the first `n` segments have.
pub open spec fn entries_in(segments: Seq<ReportModel>, n: nat) -> nat
    decreases n,
{
    if n == 0 {
        0
    } else {
        entries_in(segments, (n - 1) as nat) + segments[n - 1].entries.len()
    }
}

/// Whether segments are those of one report, in order and complete.
pub open spec fn one_report(segments: Seq<ReportModel>) -> bool {
    &&& 2 <= segments.len() <= u32::MAX
    &&& forall|i: int|
        0 <= i < segments.len() ==> {
            &&& (#[trigger] segments[i]).opt_flds.segmentation
            &&& same_run(segments[0], segments[i])
            &&& segment_number(segments[i]) == i
            &&& segments[i].more_segments_follow <==> i < segments.len() - 1
        }
}

proof fn lemma_find_none(partial: Seq<PendingModel>, r: ReportModel, i: nat)
    ensures
        find_run(partial, r, i) is None <==> forall|j: int|
            i <= j < partial.len() ==> !same_run((#[trigger] partial[j]).report, r),
    decreases partial.len() - i,
{
    if i < partial.len() {
        lemma_find_none(partial, r, i + 1);
        if find_run(partial, r, i) is None {
            assert forall|j: int| i <= j < partial.len() implies !same_run(
                (#[trigger] partial[j]).report,
                r,
            ) by {
                if j == i {
                }
            }
        }
    }
}

proof fn lemma_find_last(partial: Seq<PendingModel>, r: ReportModel, i: nat)
    requires
        i < partial.len(),
        forall|j: int|
            i <= j < partial.len() - 1 ==> !same_run((#[trigger] partial[j]).report, r),
        same_run(partial.last().report, r),
    ensures
        find_run(partial, r, i) == Some((partial.len() - 1) as nat),
    decreases partial.len() - i,
{
    if i < partial.len() - 1 {
        assert(!same_run(partial[i as int].report, r));
        lemma_find_last(partial, r, i + 1);
    }
}

proof fn lemma_entries_grow(segments: Seq<ReportModel>, n: nat, m: nat)
    requires
        n <= m,
    ensures
        entries_in(segments, n) <= entries_in(segments, m),
    decreases m - n,
{
    if n < m {
        lemma_entries_grow(segments, n, (m - 1) as nat);
    }
}

/// The reports an assembler holds besides the one whose first segment it takes.
pub open spec fn others(s: AssemblerModel) -> Seq<PendingModel> {
    if s.partial.len() >= s.capacity {
        s.partial.skip(1)
    } else {
        s.partial
    }
}

proof fn lemma_fed(s: AssemblerModel, segments: Seq<ReportModel>, n: nat)
    requires
        bounded(s),
        one_report(segments),
        find_run(s.partial, segments[0], 0) is None,
        entries_in(segments, segments.len()) <= s.max_entries,
        1 <= n < segments.len(),
    ensures
        assembled(fed(s, segments, (n - 1) as nat), segments[n - 1]).1 is None,
        fed(s, segments, n).partial == others(s).push(
            PendingModel { next_sub_seq: n as u32, report: joined(segments, n) },
        ),
        fed(s, segments, n).max_entries == s.max_entries,
        fed(s, segments, n).stats.reassembled == s.stats.reassembled,
        joined(segments, n).entries.len() == entries_in(segments, n),
        same_run(joined(segments, n), segments[0]),
    decreases n,
{
    lemma_entries_grow(segments, n, segments.len());
    if n == 1 {
        assert(fed(s, segments, 0) == s);
        assert(entries_in(segments, 0) == 0);
        assert(segments[0].opt_flds.segmentation);
    } else {
        let m = (n - 1) as nat;
        lemma_fed(s, segments, m);
        let a = fed(s, segments, m);
        let r = segments[n - 1];
        lemma_find_none(s.partial, segments[0], 0);
        lemma_find_last(a.partial, r, 0);
        lemma_in_order(joined(segments, m).entries + r.entries);
        assert(fed(s, segments, n).partial =~= others(s).push(
            PendingModel { next_sub_seq: n as u32, report: joined(segments, n) },
        ));
    }
}

/// The segments of a report, fed in order, give nothing until the last, and then the whole of it:
/// every entry of every segment, and no run left behind. Reports that were pending stay so, but
/// for the first of them where there is no room for one more.
pub proof fn lemma_segments_joined(s: AssemblerModel, segments: Seq<ReportModel>)
    requires
        bounded(s),
        one_report(segments),
        find_run(s.partial, segments[0], 0) is None,
        entries_in(segments, segments.len()) <= s.max_entries,
    ensures
        forall|n: nat|
            1 <= n < segments.len() ==> (#[trigger] assembled(
                fed(s, segments, (n - 1) as nat),
                segments[n - 1],
            )).1 is None,
        assembled(
            fed(s, segments, (segments.len() - 1) as nat),
            segments.last(),
        ).1 == Some(
            ReportModel { more_segments_follow: false, ..joined(segments, segments.len()) },
        ),
        joined(segments, segments.len()).entries.len() == entries_in(segments, segments.len()),
        fed(s, segments, segments.len()).partial == others(s),
        fed(s, segments, segments.len()).stats.reassembled == bump(s.stats.reassembled),
{
    assert forall|n: nat| 1 <= n < segments.len() implies (#[trigger] assembled(
        fed(s, segments, (n - 1) as nat),
        segments[n - 1],
    )).1 is None by {
        lemma_fed(s, segments, n);
    }
    let m = (segments.len() - 1) as nat;
    let a = fed(s, segments, m);
    let r = segments.last();
    lemma_fed(s, segments, m);
    assert(r == segments[m as int]);
    lemma_find_none(s.partial, segments[0], 0);
    lemma_find_last(a.partial, r, 0);
    lemma_in_order(joined(segments, m).entries + r.entries);
    assert(fed(s, segments, segments.len()).partial =~= others(s));
}

impl ReportAssembler {
    /// Both bounds hold of every assembler.
    #[verifier::type_invariant]
    spec fn within_bounds(&self) -> bool {
        bounded(self@)
    }

    /// An assembler holding at most `capacity` partially-received reports at once, each of at
    /// most as many entries as a data set may have members by default.
    pub fn new(capacity: usize) -> (r: ReportAssembler)
        ensures
            bounded(r@),
            r@.partial.len() == 0,
            r@.capacity == if capacity == 0 { 1 } else { capacity },
            r@.max_entries == crate::common::default_limits().max_dataset_members,
            r@.stats == (AssemblerStats {
                reassembled: 0,
                out_of_order: 0,
                evicted: 0,
                oversized: 0,
            }),
    {
        let limits: Limits = Default::default();
        ReportAssembler::with_max_entries(capacity, limits.max_dataset_members)
    }

    /// An assembler with an explicit entry bound, for a data set larger than the default.
    pub fn with_max_entries(capacity: usize, max_entries: usize) -> (r: ReportAssembler)
        ensures
            bounded(r@),
            r@.partial.len() == 0,
            r@.capacity == if capacity == 0 { 1 } else { capacity },
            r@.max_entries == if max_entries == 0 { 1 } else { max_entries },
            r@.stats == (AssemblerStats {
                reassembled: 0,
                out_of_order: 0,
                evicted: 0,
                oversized: 0,
            }),
    {
        ReportAssembler {
            partial: Vec::new(),
            capacity: if capacity == 0 {
                1
            } else {
                capacity
            },
            max_entries: if max_entries == 0 {
                1
            } else {
                max_entries
            },
            stats: AssemblerStats { reassembled: 0, out_of_order: 0, evicted: 0, oversized: 0 },
        }
    }

    /// The largest number of entries one reassembled report may reach.
    pub fn max_entries(&self) -> (r: usize)
        ensures
            r == self@.max_entries,
    {
        self.max_entries
    }

    /// The counters.
    pub fn stats(&self) -> (r: AssemblerStats)
        ensures
            r == self@.stats,
    {
        self.stats
    }

    /// Partially-received reports being held.
    pub fn pending(&self) -> (r: usize)
        ensures
            r == self@.partial.len(),
    {
        self.partial.len()
    }

    fn find(&self, report: &Report) -> (r: Option<usize>)
        ensures
            match r {
                Some(i) => find_run(self@.partial, report@, 0) == Some(i as nat) && i
                    < self.partial.len(),
                None => find_run(self@.partial, report@, 0) is None,
            },
    {
        let mut i: usize = 0;
        while i < self.partial.len()
            invariant
                i <= self.partial.len(),
                find_run(self@.partial, report@, 0) == find_run(
                    self@.partial,
                    report@,
                    i as nat,
                ),
            decreases self.partial.len() - i,
        {
            let p = &self.partial[i].report;
            if p.rpt_id == report.rpt_id && same_number(p.seq_num, report.seq_num) {
                return Some(i);
            }
            i += 1;
        }
        None
    }

    /// Feed one report. Returns the whole report once its last segment arrives.
    ///
    /// A segment that does not follow the one before it abandons the run.
    pub fn push(&mut self, report: Report) -> (r: Option<Report>)
        ensures
            final(self)@ == assembled(old(self)@, report@).0,
            opt_view(r) == assembled(old(self)@, report@).1,
            bounded(final(self)@),
    {
        proof {
            use_type_invariant(&*self);
            lemma_assembler_bounded(self@, report@);
        }
        if !report.opt_flds.segmentation {
            return Some(report);
        }
        let ghost before = self@;
        let i: usize = match self.find(&report) {
            Some(i) => i,
            None => return self.start(report),
        };
        let sub: u32 = match report.sub_seq_num {
            Some(n) => n,
            None => 0,
        };
        let mut partial: Vec<Pending> = Vec::new();
        core::mem::swap(&mut partial, &mut self.partial);
        assert(views(partial@) == before.partial);
        assert(partial@[i as int]@ == before.partial[i as int]);
        if sub != partial[i].next_sub_seq {
            partial.swap_remove(i);
            assert(views(partial@) =~= swap_out(before.partial, i as int));
            self.partial = partial;
            self.stats.out_of_order = self.stats.out_of_order.saturating_add(1);
            return self.start(report);
        }
        let held: usize = partial[i].report.entries.len();
        let more_entries: usize = report.entries.len();
        if more_entries > self.max_entries || held > self.max_entries - more_entries {
            partial.swap_remove(i);
            assert(views(partial@) =~= swap_out(before.partial, i as int));
            self.partial = partial;
            self.stats.oversized = self.stats.oversized.saturating_add(1);
            return None;
        }
        if report.more_segments_follow {
            let p = partial.remove(i);
            let report = merge(p.report, report);
            let next = Pending { next_sub_seq: sub.saturating_add(1), report };
            partial.insert(i, next);
            assert(views(partial@) =~= before.partial.update(i as int, next@));
            self.partial = partial;
            return None;
        }
        let p = partial.swap_remove(i);
        assert(views(partial@) =~= swap_out(before.partial, i as int));
        self.partial = partial;
        let mut done = merge(p.report, report);
        done.more_segments_follow = false;
        self.stats.reassembled = self.stats.reassembled.saturating_add(1);
        Some(done)
    }

    /// Throw away every partially-received report, for a client that has reconnected.
    pub fn clear(&mut self)
        ensures
            final(self)@ == (AssemblerModel { partial: Seq::empty(), ..old(self)@ }),
    {
        proof {
            use_type_invariant(&*self);
        }
        self.partial = Vec::new();
        assert(self@.partial =~= Seq::<PendingModel>::empty());
    }

    fn start(&mut self, report: Report) -> (r: Option<Report>)
        ensures
            final(self)@ == started(old(self)@, report@).0,
            opt_view(r) == started(old(self)@, report@).1,
    {
        proof {
            use_type_invariant(&*self);
        }
        let sub: u32 = match report.sub_seq_num {
            Some(n) => n,
            None => 0,
        };
        if sub != 0 {
            self.stats.out_of_order = self.stats.out_of_order.saturating_add(1);
            return None;
        }
        if !report.more_segments_follow {
            return Some(report);
        }
        if report.entries.len() > self.max_entries {
            self.stats.oversized = self.stats.oversized.saturating_add(1);
            return None;
        }
        let ghost before = self@;
        let mut partial: Vec<Pending> = Vec::new();
        core::mem::swap(&mut partial, &mut self.partial);
        assert(views(partial@) == before.partial);
        if partial.len() >= self.capacity {
            partial.remove(0);
            assert(views(partial@) =~= before.partial.skip(1));
            self.stats.evicted = self.stats.evicted.saturating_add(1);
        }
        let ghost kept = views(partial@);
        partial.push(Pending { next_sub_seq: 1, report });
        assert(views(partial@) =~= kept.push(PendingModel { next_sub_seq: 1, report: report@ }));
        self.partial = partial;
        None
    }
}

fn same_number(a: Option<u32>, b: Option<u32>) -> (r: bool)
    ensures
        r == (a == b),
{
    match (a, b) {
        (Some(x), Some(y)) => x == y,
        (None, None) => true,
        _ => false,
    }
}

// ---- laws of the codec -----------------------------------------------------------------

/// Whether a report holds exactly what its options promise, and its entries stand for the
/// members its bit string includes.
pub open spec fn tidy(m: ReportModel) -> bool {
    let o = m.opt_flds;
    &&& m.seq_num is Some <==> o.sequence_number
    &&& m.time_of_entry is Some <==> o.report_time_stamp
    &&& m.data_set is Some <==> o.data_set_name
    &&& m.buf_ovfl is Some <==> o.buffer_overflow
    &&& m.entry_id is Some <==> o.entry_id
    &&& m.conf_rev is Some <==> o.conf_revision
    &&& m.sub_seq_num is Some <==> o.segmentation
    &&& m.more_segments_follow ==> o.segmentation
    &&& m.entries.len() == included(m.unused, m.inclusion).len()
    &&& forall|i: int|
        0 <= i < m.entries.len() ==> {
            &&& (#[trigger] m.entries[i]).index == included(m.unused, m.inclusion)[i]
            &&& m.entries[i].reference is Some <==> o.data_reference
            &&& m.entries[i].reason is Some <==> o.reason_for_inclusion
        }
}

proof fn lemma_header_positions(m: ReportModel, v: Seq<ValueModel>, rest: Seq<ValueModel>)
    requires
        v == header_values(m) + rest,
    ensures
        header_values(m).len() == inclusion_pos(m.opt_flds) + 1,
        v[0] == ValueModel::VisibleString(m.rpt_id),
        v[1] == opt_flds_value(m.opt_flds),
        m.opt_flds.sequence_number ==> v[2] == ValueModel::Unsigned(m.seq_num->Some_0 as u64),
        m.opt_flds.report_time_stamp ==> v[time_pos(m.opt_flds) as int] == ValueModel::BinaryTime(
            entry_octets(m.time_of_entry->Some_0),
        ),
        m.opt_flds.data_set_name ==> v[data_set_pos(m.opt_flds) as int]
            == ValueModel::VisibleString(m.data_set->Some_0),
        m.opt_flds.buffer_overflow ==> v[overflow_pos(m.opt_flds) as int] == ValueModel::Boolean(
            m.buf_ovfl->Some_0,
        ),
        m.opt_flds.entry_id ==> v[entry_id_pos(m.opt_flds) as int] == ValueModel::OctetString(
            m.entry_id->Some_0,
        ),
        m.opt_flds.conf_revision ==> v[conf_rev_pos(m.opt_flds) as int] == ValueModel::Unsigned(
            m.conf_rev->Some_0 as u64,
        ),
        m.opt_flds.segmentation ==> v[segment_pos(m.opt_flds) as int] == ValueModel::Unsigned(
            m.sub_seq_num->Some_0 as u64,
        ),
        m.opt_flds.segmentation ==> v[segment_pos(m.opt_flds) + 1int] == ValueModel::Boolean(
            m.more_segments_follow,
        ),
        v[inclusion_pos(m.opt_flds) as int] == (ValueModel::BitString {
            unused: m.unused,
            bytes: m.inclusion,
        }),
{
    let o = m.opt_flds;
    let p1 = if_present(o.sequence_number, ValueModel::Unsigned(m.seq_num->Some_0 as u64));
    let p2 = if_present(
        o.report_time_stamp,
        ValueModel::BinaryTime(entry_octets(m.time_of_entry->Some_0)),
    );
    let p3 = if_present(o.data_set_name, ValueModel::VisibleString(m.data_set->Some_0));
    let p4 = if_present(o.buffer_overflow, ValueModel::Boolean(m.buf_ovfl->Some_0));
    let p5 = if_present(o.entry_id, ValueModel::OctetString(m.entry_id->Some_0));
    let p6 = if_present(o.conf_revision, ValueModel::Unsigned(m.conf_rev->Some_0 as u64));
    let p7 = if_present(o.segmentation, ValueModel::Unsigned(m.sub_seq_num->Some_0 as u64));
    let p8 = if_present(o.segmentation, ValueModel::Boolean(m.more_segments_follow));
    let last = seq![ValueModel::BitString { unused: m.unused, bytes: m.inclusion }];
    let s0 = seq![ValueModel::VisibleString(m.rpt_id), opt_flds_value(o)];
    let s1 = s0 + p1;
    let s2 = s1 + p2;
    let s3 = s2 + p3;
    let s4 = s3 + p4;
    let s5 = s4 + p5;
    let s6 = s5 + p6;
    let s7 = s6 + p7;
    let s8 = s7 + p8;
    let s9 = s8 + last;
    lemma_if_present(o.sequence_number, ValueModel::Unsigned(m.seq_num->Some_0 as u64));
    lemma_if_present(
        o.report_time_stamp,
        ValueModel::BinaryTime(entry_octets(m.time_of_entry->Some_0)),
    );
    lemma_if_present(o.data_set_name, ValueModel::VisibleString(m.data_set->Some_0));
    lemma_if_present(o.buffer_overflow, ValueModel::Boolean(m.buf_ovfl->Some_0));
    lemma_if_present(o.entry_id, ValueModel::OctetString(m.entry_id->Some_0));
    lemma_if_present(o.conf_revision, ValueModel::Unsigned(m.conf_rev->Some_0 as u64));
    lemma_if_present(o.segmentation, ValueModel::Unsigned(m.sub_seq_num->Some_0 as u64));
    lemma_if_present(o.segmentation, ValueModel::Boolean(m.more_segments_follow));
    assert(header_values(m) == s9);
    lemma_kept(s0, p1, 0);
    lemma_kept(s0, p1, 1);
    lemma_tail(s0, p1, s2, p2, s3, p3, s4, p4, s5, p5, s6, p6, s7, p7, s8, p8, s9, last, rest, v);
}

proof fn lemma_kept(a: Seq<ValueModel>, b: Seq<ValueModel>, i: int)
    ensures
        0 <= i < a.len() ==> (a + b)[i] == a[i],
{
}

/// Concatenation keeps every element of its left part where it was.
proof fn lemma_tail(
    s0: Seq<ValueModel>,
    p1: Seq<ValueModel>,
    s2: Seq<ValueModel>,
    p2: Seq<ValueModel>,
    s3: Seq<ValueModel>,
    p3: Seq<ValueModel>,
    s4: Seq<ValueModel>,
    p4: Seq<ValueModel>,
    s5: Seq<ValueModel>,
    p5: Seq<ValueModel>,
    s6: Seq<ValueModel>,
    p6: Seq<ValueModel>,
    s7: Seq<ValueModel>,
    p7: Seq<ValueModel>,
    s8: Seq<ValueModel>,
    p8: Seq<ValueModel>,
    s9: Seq<ValueModel>,
    p9: Seq<ValueModel>,
    rest: Seq<ValueModel>,
    v: Seq<ValueModel>,
)
    requires
        s2 == (s0 + p1) + p2,
        s3 == s2 + p3,
        s4 == s3 + p4,
        s5 == s4 + p5,
        s6 == s5 + p6,
        s7 == s6 + p7,
        s8 == s7 + p8,
        s9 == s8 + p9,
        v == s9 + rest,
    ensures
        s9.len() == s0.len() + p1.len() + p2.len() + p3.len() + p4.len() + p5.len() + p6.len()
            + p7.len() + p8.len() + p9.len(),
        forall|i: int| 0 <= i < s0.len() ==> v[i] == #[trigger] s0[i],
        p1.len() > 0 ==> v[s0.len() as int] == p1[0],
        p2.len() > 0 ==> v[(s0.len() + p1.len()) as int] == p2[0],
        p3.len() > 0 ==> v[s2.len() as int] == p3[0],
        p4.len() > 0 ==> v[s3.len() as int] == p4[0],
        p5.len() > 0 ==> v[s4.len() as int] == p5[0],
        p6.len() > 0 ==> v[s5.len() as int] == p6[0],
        p7.len() > 0 ==> v[s6.len() as int] == p7[0],
        p8.len() > 0 ==> v[s7.len() as int] == p8[0],
        p9.len() > 0 ==> v[s8.len() as int] == p9[0],
{
    assert forall|i: int| 0 <= i < s0.len() implies v[i] == #[trigger] s0[i] by {
        assert(v[i] == s9[i]);
    }
}

proof fn lemma_references_round_trip(
    v: Seq<ValueModel>,
    at: nat,
    n: nat,
    acc: Seq<Seq<char>>,
    refs: Seq<Seq<char>>,
)
    requires
        acc.len() + n == refs.len(),
        at + n <= v.len(),
        acc == refs.take(acc.len() as int),
        forall|i: int|
            0 <= i < n ==> #[trigger] v[at + i] == ValueModel::VisibleString(refs[acc.len() + i]),
    ensures
        references_at(v, at, n, acc) == Ok::<Seq<Seq<char>>, Error>(refs),
    decreases n,
{
    if n > 0 {
        assert(v[at + 0int] == ValueModel::VisibleString(refs[acc.len() as int]));
        let next = acc.push(refs[acc.len() as int]);
        assert(next =~= refs.take(next.len() as int));
        assert forall|i: int| 0 <= i < n - 1 implies #[trigger] v[at + 1 + i]
            == ValueModel::VisibleString(refs[next.len() + i]) by {
            assert(v[at + (i + 1)] == ValueModel::VisibleString(refs[acc.len() + (i + 1)]));
        }
        lemma_references_round_trip(v, at + 1, (n - 1) as nat, next, refs);
    } else {
        assert(acc =~= refs);
    }
}

proof fn lemma_reasons_round_trip(
    v: Seq<ValueModel>,
    at: nat,
    n: nat,
    acc: Seq<ReasonCode>,
    reasons: Seq<ReasonCode>,
)
    requires
        acc.len() + n == reasons.len(),
        at + n <= v.len(),
        acc == reasons.take(acc.len() as int),
        forall|i: int|
            0 <= i < n ==> #[trigger] v[at + i] == reason_code_value(reasons[acc.len() + i]),
    ensures
        reasons_at(v, at, n, acc) == Ok::<Seq<ReasonCode>, Error>(reasons),
    decreases n,
{
    if n > 0 {
        assert(v[at + 0int] == reason_code_value(reasons[acc.len() as int]));
        lemma_reason_code_round_trip(reasons[acc.len() as int]);
        let next = acc.push(reasons[acc.len() as int]);
        assert(next =~= reasons.take(next.len() as int));
        assert forall|i: int| 0 <= i < n - 1 implies #[trigger] v[at + 1 + i]
            == reason_code_value(reasons[next.len() + i]) by {
            assert(v[at + (i + 1)] == reason_code_value(reasons[acc.len() + (i + 1)]));
        }
        lemma_reasons_round_trip(v, at + 1, (n - 1) as nat, next, reasons);
    } else {
        assert(acc =~= reasons);
    }
}

/// The header of a tidy report.
pub open spec fn header_in(m: ReportModel) -> HeaderModel {
    HeaderModel {
        rpt_id: m.rpt_id,
        opt_flds: m.opt_flds,
        seq_num: m.seq_num,
        time_of_entry: m.time_of_entry,
        data_set: m.data_set,
        buf_ovfl: m.buf_ovfl,
        entry_id: m.entry_id,
        conf_rev: m.conf_rev,
        sub_seq_num: m.sub_seq_num,
        more_segments_follow: m.more_segments_follow,
        unused: m.unused,
        inclusion: m.inclusion,
    }
}

proof fn lemma_header_round_trip(m: ReportModel, v: Seq<ValueModel>, rest: Seq<ValueModel>)
    requires
        tidy(m),
        v == header_values(m) + rest,
    ensures
        header_of(v) == Ok::<HeaderModel, Error>(header_in(m)),
{
    reveal(header_of);
    lemma_header_positions(m, v, rest);
    lemma_opt_flds_round_trip(m.opt_flds);
    if m.opt_flds.report_time_stamp {
        lemma_entry_time_round_trip(m.time_of_entry->Some_0);
    }
    reveal(seq_num_of);
    reveal(time_of_entry_of);
    reveal(data_set_of);
    reveal(buf_ovfl_of);
    reveal(entry_id_of);
    reveal(conf_rev_of);
    reveal(segment_of);
    let o = m.opt_flds;
    assert(start_of(v) == Ok::<(Seq<char>, OptFlds), Error>((m.rpt_id, o)));
    assert(seq_num_of(v, o) == Ok::<Option<u32>, Error>(m.seq_num));
    assert(time_of_entry_of(v, o) == Ok::<Option<EntryTime>, Error>(m.time_of_entry));
    assert(data_set_of(v, o) == Ok::<Option<Seq<char>>, Error>(m.data_set));
    assert(buf_ovfl_of(v, o) == Ok::<Option<bool>, Error>(m.buf_ovfl));
    assert(entry_id_of(v, o) == Ok::<Option<Seq<u8>>, Error>(m.entry_id));
    assert(conf_rev_of(v, o) == Ok::<Option<u32>, Error>(m.conf_rev));
    assert(segment_of(v, o) == Ok::<(Option<u32>, bool), Error>(
        (m.sub_seq_num, m.more_segments_follow),
    ));
}

/// The references of the entries, where the options promise them.
pub open spec fn references_in(m: ReportModel) -> Seq<Seq<char>> {
    if m.opt_flds.data_reference {
        Seq::new(m.entries.len(), |i: int| m.entries[i].reference->Some_0)
    } else {
        Seq::empty()
    }
}

/// The reason codes of the entries, where the options promise them.
pub open spec fn reasons_in(m: ReportModel) -> Seq<ReasonCode> {
    if m.opt_flds.reason_for_inclusion {
        Seq::new(m.entries.len(), |i: int| m.entries[i].reason->Some_0)
    } else {
        Seq::empty()
    }
}

proof fn lemma_references_in(m: ReportModel, v: Seq<ValueModel>, h: Seq<ValueModel>, t: Seq<
    ValueModel,
>)
    requires
        v == h + (reference_values(m) + t),
        h.len() == inclusion_pos(m.opt_flds) + 1,
    ensures
        references_of(v, m.opt_flds, m.entries.len()) == Ok::<Seq<Seq<char>>, Error>(
            references_in(m),
        ),
{
    reveal(references_of);
    let n = m.entries.len();
    let start = h.len();
    let refs = reference_values(m);
    if m.opt_flds.data_reference {
        assert forall|i: int| 0 <= i < n implies #[trigger] v[start + i]
            == ValueModel::VisibleString(references_in(m)[0 + i]) by {
            assert(v[start + i] == (refs + t)[i]);
            assert((refs + t)[i] == refs[i]);
        }
        assert(references_in(m).take(0) =~= Seq::<Seq<char>>::empty());
        lemma_references_round_trip(v, start, n, Seq::empty(), references_in(m));
    }
}

proof fn lemma_reasons_in(m: ReportModel, v: Seq<ValueModel>, h: Seq<ValueModel>)
    requires
        v == h + reason_values(m),
        h.len() == values_pos(m.opt_flds, m.entries.len()) + m.entries.len(),
    ensures
        reasons_of(v, m.opt_flds, m.entries.len()) == Ok::<Seq<ReasonCode>, Error>(reasons_in(m)),
{
    reveal(reasons_of);
    let n = m.entries.len();
    let start = h.len();
    if m.opt_flds.reason_for_inclusion {
        assert forall|i: int| 0 <= i < n implies #[trigger] v[start + i] == reason_code_value(
            reasons_in(m)[0 + i],
        ) by {
            assert(v[start + i] == reason_values(m)[i]);
        }
        assert(reasons_in(m).take(0) =~= Seq::<ReasonCode>::empty());
        lemma_reasons_round_trip(v, start, n, Seq::empty(), reasons_in(m));
    }
}

proof fn lemma_entries_in(m: ReportModel, values: Seq<ValueModel>)
    requires
        tidy(m),
        values.len() >= m.entries.len(),
        forall|i: int| 0 <= i < m.entries.len() ==> #[trigger] values[i] == m.entries[i].value,
    ensures
        entries_of(
            included(m.unused, m.inclusion),
            references_in(m),
            values,
            reasons_in(m),
        ) == m.entries,
{
    reveal(entries_of);
    let got = entries_of(
        included(m.unused, m.inclusion),
        references_in(m),
        values,
        reasons_in(m),
    );
    assert forall|i: int| 0 <= i < m.entries.len() implies got[i] == m.entries[i] by {
        assert(values[i] == m.entries[i].value);
    }
    assert(got =~= m.entries);
}

/// A tidy report has values.
pub proof fn lemma_tidy_has_values(m: ReportModel)
    requires
        tidy(m),
    ensures
        report_fault(m) is None,
{
}

/// A tidy report survives [`Report::to_values`] and [`Report::from_values`].
pub proof fn lemma_report_round_trip(m: ReportModel)
    requires
        tidy(m),
    ensures
        report_of(report_values(m)) == Ok::<ReportModel, Error>(m),
{
    let o = m.opt_flds;
    let n = m.entries.len();
    let v = report_values(m);
    let h = header_values(m);
    let refs = reference_values(m);
    let vals = entry_values(m);
    let codes = reason_values(m);
    let tail = vals + codes;
    assert(v =~= h + (refs + tail));
    lemma_header_positions(m, v, refs + tail);
    lemma_header_round_trip(m, v, refs + tail);
    lemma_references_in(m, v, h, tail);
    let front = h + refs + vals;
    assert(v == front + codes);
    assert(front.len() == values_pos(o, n) + n);
    lemma_reasons_in(m, v, front);
    let at = values_pos(o, n);
    assert(v.skip(at as int) =~= tail);
    assert forall|i: int| 0 <= i < n implies #[trigger] tail[i] == m.entries[i].value by {
        assert(tail[i] == vals[i]);
    }
    lemma_entries_in(m, v.skip(at as int));
    assert(v.len() == end_pos(o, n));
}

proof fn lemma_header_decoded(v: Seq<ValueModel>)
    ensures
        header_of(v) matches Ok(h) ==> {
            let o = h.opt_flds;
            &&& h.seq_num is Some <==> o.sequence_number
            &&& h.time_of_entry is Some <==> o.report_time_stamp
            &&& h.data_set is Some <==> o.data_set_name
            &&& h.buf_ovfl is Some <==> o.buffer_overflow
            &&& h.entry_id is Some <==> o.entry_id
            &&& h.conf_rev is Some <==> o.conf_revision
            &&& h.sub_seq_num is Some <==> o.segmentation
            &&& h.more_segments_follow ==> o.segmentation
        },
{
    reveal(header_of);
    reveal(seq_num_of);
    reveal(time_of_entry_of);
    reveal(data_set_of);
    reveal(buf_ovfl_of);
    reveal(entry_id_of);
    reveal(conf_rev_of);
    reveal(segment_of);
}

proof fn lemma_references_counted(v: Seq<ValueModel>, at: nat, n: nat, acc: Seq<Seq<char>>)
    ensures
        references_at(v, at, n, acc) matches Ok(r) ==> r.len() == acc.len() + n,
    decreases n,
{
    if n > 0 {
        if let Ok(s) = text_at(v, at, "data-reference", "a data reference is not a string") {
            lemma_references_counted(v, at + 1, (n - 1) as nat, acc.push(s));
        }
    }
}

proof fn lemma_reasons_counted(v: Seq<ValueModel>, at: nat, n: nat, acc: Seq<ReasonCode>)
    ensures
        reasons_at(v, at, n, acc) matches Ok(r) ==> r.len() == acc.len() + n,
    decreases n,
{
    if n > 0 {
        if let Ok(x) = value_at(v, at, "ReasonCode") {
            if let Some(r) = value_reason_code(x) {
                lemma_reasons_counted(v, at + 1, (n - 1) as nat, acc.push(r));
            }
        }
    }
}

/// Encoding a report is a fixed point: whatever decodes has values, and they decode to the same.
pub proof fn lemma_report_fixed_point(v: Seq<ValueModel>)
    ensures
        report_of(v) matches Ok(m) ==> {
            &&& tidy(m)
            &&& report_fault(m) is None
            &&& report_of(report_values(m)) == Ok::<ReportModel, Error>(m)
        },
{
    lemma_header_decoded(v);
    if let Ok(m) = report_of(v) {
        let o = m.opt_flds;
        let n = included(m.unused, m.inclusion).len();
        reveal(references_of);
        reveal(reasons_of);
        reveal(entries_of);
        lemma_references_counted(v, inclusion_pos(o) + 1, n, Seq::empty());
        lemma_reasons_counted(v, values_pos(o, n) + n, n, Seq::empty());
        assert(tidy(m));
        lemma_report_round_trip(m);
    }
}

} // verus!
