//! What a report says, value by value.

use vstd::prelude::*;
use crate::common::{
    bit, entry_octets, entry_time_from, entry_time_of, opt_flds_from, opt_flds_octets,
    reason_code_from, reason_code_octets, utc_nanos, EntryTime, Error, Limits, OptFlds, ReasonCode,
};
use crate::proto::data::{data_of, owned, ValueModel};
use crate::proto::mms::report::{
    bool_at, buf_ovfl_of, conf_rev_of, counter_of, data_set_of, entries_of, entry_id_of,
    entry_values, header_of, header_values, included, included_from, inclusion_pos,
    lemma_header_positions, member_count, octets_for, reason_values, reasons_at, reasons_of,
    reference_values, references_at, references_of, report_fault, report_of, report_values,
    result_values, segment_of, seq_num_of, text_at, time_of_entry_of, time_of_value, value_at,
    values_pos, ReportModel,
};
use crate::proto::mms::variables::AccessResultModel;

verus! {

/// How many values an optional field takes.
pub open spec fn taken(present: bool) -> int {
    if present {
        1
    } else {
        0
    }
}

/// Whether a value is this text.
pub open spec fn is_text(v: ValueModel, s: Seq<char>) -> bool {
    v == ValueModel::VisibleString(s) || v == ValueModel::MmsString(s)
}

/// Whether a value is this number.
pub open spec fn is_number(v: ValueModel, n: u32) -> bool {
    v == ValueModel::Unsigned(n as u64) || v == ValueModel::Integer(n as i64)
}

/// Whether a value is this time: six octets, or a UTC time of the same millisecond.
pub open spec fn is_time(v: ValueModel, t: EntryTime) -> bool {
    match v {
        ValueModel::BinaryTime(b) => b.len() == 6 && t == entry_time_from(b),
        ValueModel::UtcTime(u) => t == entry_time_of((utc_nanos(u) / 1_000_000) as u64),
        _ => false,
    }
}

/// Whether a value is this octet string.
pub open spec fn is_octets(v: ValueModel, s: Seq<u8>) -> bool {
    v == ValueModel::OctetString(s)
}

/// Whether a value is this reason.
pub open spec fn is_reason(v: ValueModel, r: ReasonCode) -> bool {
    match v {
        ValueModel::BitString { bytes, .. } => r == reason_code_from(bytes),
        _ => false,
    }
}

/// Where the time of a report stands among its values.
pub open spec fn time_place(o: OptFlds) -> int {
    2 + taken(o.sequence_number)
}

/// Where the name of the data set stands.
pub open spec fn data_set_place(o: OptFlds) -> int {
    time_place(o) + taken(o.report_time_stamp)
}

/// Where the mark of an overflow stands.
pub open spec fn overflow_place(o: OptFlds) -> int {
    data_set_place(o) + taken(o.data_set_name)
}

/// Where the identifier of the entry stands.
pub open spec fn entry_place(o: OptFlds) -> int {
    overflow_place(o) + taken(o.buffer_overflow)
}

/// Where the revision stands.
pub open spec fn revision_place(o: OptFlds) -> int {
    entry_place(o) + taken(o.entry_id)
}

/// Where the segment number stands; whether more follow stands behind it.
pub open spec fn segment_place(o: OptFlds) -> int {
    revision_place(o) + taken(o.conf_revision)
}

/// Where the bit string of the members stands.
pub open spec fn members_place(o: OptFlds) -> int {
    segment_place(o) + taken(o.segmentation) + taken(o.segmentation)
}

/// Where the first value of `n` members stands.
pub open spec fn values_place(o: OptFlds, n: int) -> int {
    members_place(o) + 1 + if o.data_reference {
        n
    } else {
        0
    }
}

/// Each field of a report comes from its own value: the name first, the options second, and then
/// those of the number, the time, the data set, the overflow, the entry, the revision and the
/// segment that the options name, in this order, before the bit string of the members. A field
/// that the options do not name is absent.
pub proof fn lemma_fields_read(v: Seq<ValueModel>, m: ReportModel)
    requires
        report_of(v) == Ok::<ReportModel, Error>(m),
    ensures
        ({
            let o = m.opt_flds;
            &&& members_place(o) < v.len()
            &&& is_text(v[0], m.rpt_id)
            &&& v[1] matches ValueModel::BitString { bytes, .. } && o == opt_flds_from(bytes)
            &&& m.seq_num is Some <==> o.sequence_number
            &&& m.seq_num matches Some(n) ==> is_number(v[2], n)
            &&& m.time_of_entry is Some <==> o.report_time_stamp
            &&& m.time_of_entry matches Some(t) ==> is_time(v[time_place(o)], t)
            &&& m.data_set is Some <==> o.data_set_name
            &&& m.data_set matches Some(s) ==> is_text(v[data_set_place(o)], s)
            &&& m.buf_ovfl is Some <==> o.buffer_overflow
            &&& m.buf_ovfl matches Some(b) ==> v[overflow_place(o)] == ValueModel::Boolean(b)
            &&& m.entry_id is Some <==> o.entry_id
            &&& m.entry_id matches Some(s) ==> is_octets(v[entry_place(o)], s)
            &&& m.conf_rev is Some <==> o.conf_revision
            &&& m.conf_rev matches Some(n) ==> is_number(v[revision_place(o)], n)
            &&& m.sub_seq_num is Some <==> o.segmentation
            &&& m.sub_seq_num matches Some(n) ==> {
                &&& is_number(v[segment_place(o)], n)
                &&& v[segment_place(o) + 1] == ValueModel::Boolean(m.more_segments_follow)
            }
            &&& !o.segmentation ==> !m.more_segments_follow
            &&& v[members_place(o)] == (ValueModel::BitString {
                unused: m.unused,
                bytes: m.inclusion,
            })
        }),
{
    reveal(header_of);
    reveal(seq_num_of);
    reveal(time_of_entry_of);
    reveal(data_set_of);
    reveal(buf_ovfl_of);
    reveal(entry_id_of);
    reveal(conf_rev_of);
    reveal(segment_of);
}

proof fn lemma_references_at(
    v: Seq<ValueModel>,
    at: nat,
    n: nat,
    acc: Seq<Seq<char>>,
    out: Seq<Seq<char>>,
)
    requires
        references_at(v, at, n, acc) == Ok::<Seq<Seq<char>>, Error>(out),
    ensures
        out.len() == acc.len() + n,
        forall|i: int| 0 <= i < acc.len() ==> out[i] == acc[i],
        forall|i: int|
            0 <= i < n ==> is_text(v[at + i], #[trigger] out[acc.len() + i]) && at + i < v.len(),
    decreases n,
{
    if n > 0 {
        if let Ok(s) = text_at(v, at, "data-reference", "a data reference is not a string") {
            lemma_references_at(v, at + 1, (n - 1) as nat, acc.push(s), out);
            assert forall|i: int| 0 <= i < acc.len() implies out[i] == acc[i] by {
                assert(acc.push(s)[i] == acc[i]);
            }
            assert forall|i: int| 0 <= i < n implies is_text(
                v[at + i],
                #[trigger] out[acc.len() + i],
            ) && at + i < v.len() by {
                if i == 0 {
                    assert(out[acc.len() as int] == acc.push(s)[acc.len() as int]);
                } else {
                    assert(out[acc.push(s).len() + (i - 1)] == out[acc.len() + i]);
                    assert(v[at + 1 + (i - 1)] == v[at + i]);
                }
            }
        }
    }
}

proof fn lemma_reasons_at(
    v: Seq<ValueModel>,
    at: nat,
    n: nat,
    acc: Seq<ReasonCode>,
    out: Seq<ReasonCode>,
)
    requires
        reasons_at(v, at, n, acc) == Ok::<Seq<ReasonCode>, Error>(out),
    ensures
        out.len() == acc.len() + n,
        forall|i: int| 0 <= i < acc.len() ==> out[i] == acc[i],
        forall|i: int|
            0 <= i < n ==> is_reason(v[at + i], #[trigger] out[acc.len() + i]) && at + i < v.len(),
    decreases n,
{
    if n > 0 {
        if let Ok(ValueModel::BitString { bytes, .. }) = value_at(v, at, "ReasonCode") {
            let r = reason_code_from(bytes);
            lemma_reasons_at(v, at + 1, (n - 1) as nat, acc.push(r), out);
            assert forall|i: int| 0 <= i < acc.len() implies out[i] == acc[i] by {
                assert(acc.push(r)[i] == acc[i]);
            }
            assert forall|i: int| 0 <= i < n implies is_reason(
                v[at + i],
                #[trigger] out[acc.len() + i],
            ) && at + i < v.len() by {
                if i == 0 {
                    assert(out[acc.len() as int] == acc.push(r)[acc.len() as int]);
                } else {
                    assert(out[acc.push(r).len() + (i - 1)] == out[acc.len() + i]);
                    assert(v[at + 1 + (i - 1)] == v[at + i]);
                }
            }
        }
    }
}

/// Behind the bit string stand the references of all the members, where the options name them, then
/// their values, then their reasons, where the options name them, and nothing more. The entry at a
/// place has the reference, the value and the reason at that place.
pub proof fn lemma_entries_read(v: Seq<ValueModel>, m: ReportModel, i: int)
    requires
        report_of(v) == Ok::<ReportModel, Error>(m),
        0 <= i < m.entries.len(),
    ensures
        ({
            let o = m.opt_flds;
            let n = m.entries.len() as int;
            let first = values_place(o, n);
            let e = m.entries[i];
            &&& v.len() == first + n + (if o.reason_for_inclusion { n } else { 0 })
            &&& e.value == v[first + i]
            &&& e.reference is Some <==> o.data_reference
            &&& e.reference matches Some(s) ==> is_text(v[members_place(o) + 1 + i], s)
            &&& e.reason is Some <==> o.reason_for_inclusion
            &&& e.reason matches Some(r) ==> is_reason(v[first + n + i], r)
        }),
{
    lemma_fields_read(v, m);
    let o = m.opt_flds;
    let n = included(m.unused, m.inclusion).len();
    reveal(references_of);
    reveal(reasons_of);
    reveal(entries_of);
    let none = Seq::<Seq<char>>::empty();
    if o.data_reference {
        if let Ok(out) = references_at(v, inclusion_pos(o) + 1, n, none) {
            lemma_references_at(v, inclusion_pos(o) + 1, n, none, out);
            assert(is_text(v[inclusion_pos(o) + 1 + i], out[none.len() + i]));
        }
    }
    let no_reason = Seq::<ReasonCode>::empty();
    if o.reason_for_inclusion {
        if let Ok(out) = reasons_at(v, values_pos(o, n) + n, n, no_reason) {
            lemma_reasons_at(v, values_pos(o, n) + n, n, no_reason, out);
            assert(out[no_reason.len() + i] == out[i]);
        }
    }
}

proof fn lemma_included_from(bytes: Seq<u8>, n: nat, i: nat)
    requires
        n <= usize::MAX,
    ensures
        ({
            let s = included_from(bytes, n, i);
            &&& forall|j: int|
                0 <= j < s.len() ==> i <= #[trigger] s[j] < n && bit(bytes, s[j] as nat)
            &&& forall|j: int, k: int| 0 <= j < k < s.len() ==> #[trigger] s[j] < #[trigger] s[k]
            &&& forall|k: nat| i <= k < n && #[trigger] bit(bytes, k) ==> s.contains(k as usize)
        }),
    decreases n - i,
{
    if i < n {
        lemma_included_from(bytes, n, i + 1);
        let rest = included_from(bytes, n, i + 1);
        let s = included_from(bytes, n, i);
        if bit(bytes, i) {
            assert(s =~= seq![i as usize] + rest);
            assert forall|k: nat| i <= k < n && #[trigger] bit(bytes, k) implies s.contains(
                k as usize,
            ) by {
                if k == i {
                    assert(s[0] == k as usize);
                } else {
                    let at = choose|at: int| 0 <= at < rest.len() && rest[at] == k as usize;
                    assert(s[at + 1] == k as usize);
                }
            }
            assert forall|j: int, k: int| 0 <= j < k < s.len() implies #[trigger] s[j]
                < #[trigger] s[k] by {
                assert(s[k] == rest[k - 1]);
                if j > 0 {
                    assert(s[j] == rest[j - 1]);
                }
            }
        }
    }
}

/// The members of a report are the set bits of its bit string, but for the unused ones at its end,
/// from the first to the last.
pub proof fn lemma_members(unused: u8, bytes: Seq<u8>)
    requires
        8 * bytes.len() <= usize::MAX,
    ensures
        ({
            let s = included(unused, bytes);
            &&& forall|j: int|
                0 <= j < s.len() ==> #[trigger] s[j] + unused < 8 * bytes.len() && bit(
                    bytes,
                    s[j] as nat,
                )
            &&& forall|j: int, k: int| 0 <= j < k < s.len() ==> #[trigger] s[j] < #[trigger] s[k]
            &&& forall|k: nat|
                k + unused < 8 * bytes.len() && #[trigger] bit(bytes, k) ==> s.contains(k as usize)
        }),
{
    lemma_included_from(bytes, member_count(unused, bytes), 0);
}

/// A bit string of `n` members takes as few octets as hold them.
pub proof fn lemma_octets_needed(n: nat)
    ensures
        n <= 8 * octets_for(n) < n + 8,
{
}

/// The index of each entry is the place in the bit string of the member it is of.
pub proof fn lemma_indices(v: Seq<ValueModel>, m: ReportModel)
    requires
        report_of(v) == Ok::<ReportModel, Error>(m),
        8 * m.inclusion.len() <= usize::MAX,
    ensures
        forall|i: int|
            0 <= i < m.entries.len() ==> (#[trigger] m.entries[i]).index + m.unused < 8
                * m.inclusion.len() && bit(m.inclusion, m.entries[i].index as nat),
        forall|i: int, j: int|
            0 <= i < j < m.entries.len() ==> (#[trigger] m.entries[i]).index < (
            #[trigger] m.entries[j]).index,
        forall|k: nat|
            k + m.unused < 8 * m.inclusion.len() && #[trigger] bit(m.inclusion, k) ==> exists|i: int|
                0 <= i < m.entries.len() && (#[trigger] m.entries[i]).index == k,
{
    reveal(entries_of);
    lemma_members(m.unused, m.inclusion);
    let s = included(m.unused, m.inclusion);
    assert(forall|i: int| 0 <= i < s.len() ==> (#[trigger] m.entries[i]).index == s[i]);
    assert forall|k: nat|
        k + m.unused < 8 * m.inclusion.len() && #[trigger] bit(m.inclusion, k) implies exists|i: int|
        0 <= i < m.entries.len() && (#[trigger] m.entries[i]).index == k by {
        assert(s.contains(k as usize));
        let i = choose|i: int| 0 <= i < s.len() && s[i] == k as usize;
        assert(m.entries[i].index == k);
    }
}

/// A report is written as it is read: each field that the options name in its own place.
pub proof fn lemma_fields_written(m: ReportModel)
    requires
        report_fault(m) is None,
    ensures
        ({
            let o = m.opt_flds;
            let v = report_values(m);
            &&& v[0] == ValueModel::VisibleString(m.rpt_id)
            &&& v[1] == (ValueModel::BitString { unused: 6, bytes: opt_flds_octets(o) })
            &&& o.sequence_number ==> m.seq_num is Some && v[2] == ValueModel::Unsigned(
                m.seq_num->0 as u64,
            )
            &&& o.report_time_stamp ==> m.time_of_entry is Some && v[time_place(o)]
                == ValueModel::BinaryTime(entry_octets(m.time_of_entry->0))
            &&& o.data_set_name ==> m.data_set is Some && v[data_set_place(o)]
                == ValueModel::VisibleString(m.data_set->0)
            &&& o.buffer_overflow ==> m.buf_ovfl is Some && v[overflow_place(o)]
                == ValueModel::Boolean(m.buf_ovfl->0)
            &&& o.entry_id ==> m.entry_id is Some && is_octets(v[entry_place(o)], m.entry_id->0)
            &&& o.conf_revision ==> m.conf_rev is Some && v[revision_place(o)]
                == ValueModel::Unsigned(m.conf_rev->0 as u64)
            &&& o.segmentation ==> m.sub_seq_num is Some && v[segment_place(o)]
                == ValueModel::Unsigned(m.sub_seq_num->0 as u64) && v[segment_place(o) + 1]
                == ValueModel::Boolean(m.more_segments_follow)
            &&& v[members_place(o)] == (ValueModel::BitString {
                unused: m.unused,
                bytes: m.inclusion,
            })
        }),
{
    let rest = reference_values(m) + entry_values(m) + reason_values(m);
    assert(report_values(m) =~= header_values(m) + rest);
    lemma_header_positions(m, report_values(m), rest);
}

/// The references, the values and the reasons are written in that order, behind the bit string.
pub proof fn lemma_entries_written(m: ReportModel, i: int)
    requires
        report_fault(m) is None,
        0 <= i < m.entries.len(),
    ensures
        ({
            let o = m.opt_flds;
            let v = report_values(m);
            let n = m.entries.len() as int;
            let first = values_place(o, n);
            let e = m.entries[i];
            &&& v.len() == first + n + (if o.reason_for_inclusion { n } else { 0 })
            &&& v[first + i] == e.value
            &&& o.data_reference ==> e.reference is Some && v[members_place(o) + 1 + i]
                == ValueModel::VisibleString(e.reference->0)
            &&& o.reason_for_inclusion ==> e.reason is Some && v[first + n + i] == (
            ValueModel::BitString { unused: 1, bytes: reason_code_octets(e.reason->0) })
        }),
{
    let rest = reference_values(m) + entry_values(m) + reason_values(m);
    assert(report_values(m) =~= header_values(m) + rest);
    lemma_header_positions(m, report_values(m), rest);
}

/// A report with something that its options name left out, or with another number of entries than
/// members, has no values.
pub proof fn lemma_incomplete(m: ReportModel)
    ensures
        ({
            let o = m.opt_flds;
            report_fault(m) is None <==> {
                &&& o.sequence_number ==> m.seq_num is Some
                &&& o.report_time_stamp ==> m.time_of_entry is Some
                &&& o.data_set_name ==> m.data_set is Some
                &&& o.buffer_overflow ==> m.buf_ovfl is Some
                &&& o.entry_id ==> m.entry_id is Some
                &&& o.conf_revision ==> m.conf_rev is Some
                &&& o.segmentation ==> m.sub_seq_num is Some
                &&& included(m.unused, m.inclusion).len() == m.entries.len()
                &&& o.data_reference ==> forall|i: int|
                    0 <= i < m.entries.len() ==> (#[trigger] m.entries[i]).reference is Some
                &&& o.reason_for_inclusion ==> forall|i: int|
                    0 <= i < m.entries.len() ==> (#[trigger] m.entries[i]).reason is Some
            }
        }),
{
}

/// A counter is an unsigned number of 32 bits, or a signed one that is not negative; nothing else
/// is.
pub proof fn lemma_counter(v: ValueModel, what: &'static str)
    ensures
        match v {
            ValueModel::Unsigned(n) => counter_of(v, what) == if n <= 0xFFFF_FFFF {
                Ok::<u32, Error>(n as u32)
            } else {
                Err(Error::InvalidValue(what))
            },
            ValueModel::Integer(i) => counter_of(v, what) == if 0 <= i <= 0xFFFF_FFFF {
                Ok::<u32, Error>(i as u32)
            } else {
                Err(Error::InvalidValue(what))
            },
            _ => counter_of(v, what) == Err::<u32, Error>(Error::InvalidValue(what)),
        },
{
}

/// A time is a binary time of six octets, or a UTC time in its milliseconds; nothing else is.
pub proof fn lemma_time_value(v: ValueModel)
    ensures
        match v {
            ValueModel::BinaryTime(b) => match time_of_value(v) {
                Ok(t) => b.len() == 6 && t == entry_time_from(b),
                Err(_) => b.len() != 6,
            },
            ValueModel::UtcTime(u) => time_of_value(v) == Ok::<EntryTime, Error>(
                entry_time_of((utc_nanos(u) / 1_000_000) as u64),
            ),
            _ => time_of_value(v) is Err,
        },
{
}

/// A text is a string of either kind, and a mark is a boolean, where there is a value.
pub proof fn lemma_text_value(
    v: Seq<ValueModel>,
    at: nat,
    what: &'static str,
    wrong: &'static str,
)
    ensures
        at >= v.len() ==> {
            &&& text_at(v, at, what, wrong) == Err::<Seq<char>, Error>(Error::NotFound(what))
            &&& bool_at(v, at, what, wrong) == Err::<bool, Error>(Error::NotFound(what))
        },
        at < v.len() ==> {
            &&& text_at(v, at, what, wrong) == match v[at as int] {
                ValueModel::VisibleString(s) => Ok::<Seq<char>, Error>(s),
                ValueModel::MmsString(s) => Ok(s),
                _ => Err(Error::InvalidValue(wrong)),
            }
            &&& bool_at(v, at, what, wrong) == match v[at as int] {
                ValueModel::Boolean(b) => Ok::<bool, Error>(b),
                _ => Err(Error::InvalidValue(wrong)),
            }
        },
{
}

/// A report ends with its last value: one value more, or one less, and it is none.
pub proof fn lemma_nothing_over(v: Seq<ValueModel>, x: ValueModel, m: ReportModel)
    requires
        report_of(v) == Ok::<ReportModel, Error>(m),
    ensures
        v.len() == values_place(m.opt_flds, m.entries.len() as int) + m.entries.len() + (
        if m.opt_flds.reason_for_inclusion { m.entries.len() as int } else { 0 }),
        report_of(v.push(x)) is Err,
        report_of(v.drop_last()) is Err,
{
    lemma_length(v, m);
    if let Ok(other) = report_of(v.push(x)) {
        lemma_same_length(v, v.push(x), m, other);
    }
    if let Ok(other) = report_of(v.drop_last()) {
        lemma_same_length(v.drop_last(), v, other, m);
    }
}

proof fn lemma_length(v: Seq<ValueModel>, m: ReportModel)
    requires
        report_of(v) == Ok::<ReportModel, Error>(m),
    ensures
        m.entries.len() == included(m.unused, m.inclusion).len(),
        v.len() == values_place(m.opt_flds, m.entries.len() as int) + m.entries.len() + (
        if m.opt_flds.reason_for_inclusion { m.entries.len() as int } else { 0 }),
{
    reveal(entries_of);
}

proof fn lemma_same_length(v: Seq<ValueModel>, w: Seq<ValueModel>, m: ReportModel, n: ReportModel)
    requires
        report_of(v) == Ok::<ReportModel, Error>(m),
        report_of(w) == Ok::<ReportModel, Error>(n),
        v.len() <= w.len(),
        forall|i: int| 0 <= i < v.len() ==> v[i] == w[i],
    ensures
        v.len() == w.len(),
{
    lemma_fields_read(v, m);
    lemma_fields_read(w, n);
    lemma_length(v, m);
    lemma_length(w, n);
    assert(v[1] == w[1]);
    assert(v[members_place(m.opt_flds)] == w[members_place(m.opt_flds)]);
}

proof fn lemma_results_from(
    results: Seq<AccessResultModel>,
    limits: Limits,
    i: nat,
    acc: Seq<ValueModel>,
)
    requires
        i <= results.len(),
    ensures
        match result_values(results, limits, i, acc) {
            Ok(v) => {
                &&& v.len() == acc.len() + results.len() - i
                &&& forall|k: int| 0 <= k < acc.len() ==> v[k] == acc[k]
                &&& forall|k: int|
                    i <= k < results.len() ==> (#[trigger] results[k] matches
                        AccessResultModel::Success(t) && (data_of(t) matches Ok(d) && owned(
                        d,
                        limits,
                        0,
                    ) == Ok::<ValueModel, Error>(v[acc.len() + k - i])))
            },
            Err(_) => true,
        },
        i < results.len() ==> (results[i as int] matches AccessResultModel::Failure(code)
            ==> result_values(results, limits, i, acc) == Err::<Seq<ValueModel>, Error>(
            Error::DataAccess(code),
        )),
    decreases results.len() - i,
{
    if i < results.len() {
        if let AccessResultModel::Success(t) = results[i as int] {
            if let Ok(d) = data_of(t) {
                if let Ok(x) = owned(d, limits, 0) {
                    lemma_results_from(results, limits, i + 1, acc.push(x));
                    if let Ok(v) = result_values(results, limits, i, acc) {
                        assert(v[acc.len() as int] == acc.push(x)[acc.len() as int]);
                        assert forall|k: int| 0 <= k < acc.len() implies v[k] == acc[k] by {
                            assert(v[k] == acc.push(x)[k]);
                        }
                        assert forall|k: int| i <= k < results.len() implies (
                        #[trigger] results[k] matches AccessResultModel::Success(t) && (data_of(
                            t,
                        ) matches Ok(d) && owned(d, limits, 0) == Ok::<ValueModel, Error>(
                            v[acc.len() + k - i],
                        ))) by {
                            if k > i {
                                assert(v[acc.push(x).len() + k - (i + 1)] == v[acc.len() + k - i]);
                            }
                        }
                    }
                }
            }
        }
    }
}

/// The values of a report are those of its access results, one for one and in order; where the
/// first of them is a failure, there are none, and the error is that failure.
pub proof fn lemma_results(results: Seq<AccessResultModel>, limits: Limits)
    ensures
        result_values(results, limits, 0, Seq::empty()) matches Ok(v) ==> {
            &&& v.len() == results.len()
            &&& forall|k: int|
                0 <= k < results.len() ==> (#[trigger] results[k] matches
                    AccessResultModel::Success(t) && (data_of(t) matches Ok(d) && owned(d, limits, 0)
                    == Ok::<ValueModel, Error>(v[k])))
        },
        results.len() > 0 ==> (results[0] matches AccessResultModel::Failure(code)
            ==> result_values(results, limits, 0, Seq::empty()) == Err::<Seq<ValueModel>, Error>(
            Error::DataAccess(code),
        )),
{
    let none = Seq::<ValueModel>::empty();
    lemma_results_from(results, limits, 0, none);
}

} // verus!
