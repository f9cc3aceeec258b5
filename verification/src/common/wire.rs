//! The packed types, bit by bit.

use vstd::prelude::*;
use crate::ber::be_fixed;
use crate::ber::wire::lemma_number_read;
use crate::common::{
    bit, control_model_code, entry_octets, entry_time_from, entry_time_of, later, octet_of,
    opt_flds_from, opt_flds_octets, quality_octets, quality_of_octets, reason_code_from,
    reason_code_octets, trg_ops_from, trg_ops_octets, utc_fraction, utc_nanos, utc_seconds,
    ControlModel, EntryTime, Instant, OptFlds, Quality, ReasonCode, TrgOps, UtcTime,
};

verus! {

/// The optional fields of a report are ten bits: 1 `SqNum`, 2 `TimeOfEntry`, 3 the reasons, 4
/// `DatSet`, 5 the references, 6 `BufOvfl`, 7 `EntryID`, 8 `ConfRev` and 9 the segmentation. Bit 0
/// means nothing.
pub proof fn lemma_optional_fields(a: u8, b: u8)
    ensures
        ({
            let o = opt_flds_from(seq![a, b]);
            &&& o.sequence_number == (a / 64 % 2 == 1)
            &&& o.report_time_stamp == (a / 32 % 2 == 1)
            &&& o.reason_for_inclusion == (a / 16 % 2 == 1)
            &&& o.data_set_name == (a / 8 % 2 == 1)
            &&& o.data_reference == (a / 4 % 2 == 1)
            &&& o.buffer_overflow == (a / 2 % 2 == 1)
            &&& o.entry_id == (a % 2 == 1)
            &&& o.conf_revision == (b / 128 == 1)
            &&& o.segmentation == (b / 64 % 2 == 1)
        }),
{
    reveal(opt_flds_from);
}

/// What each optional field is written as.
pub proof fn lemma_optional_fields_written(o: OptFlds)
    ensures
        opt_flds_octets(o).len() == 2,
        opt_flds_octets(o)[0] == (if o.sequence_number { 64int } else { 0 }) + (
        if o.report_time_stamp { 32int } else { 0 }) + (if o.reason_for_inclusion {
            16int
        } else {
            0
        }) + (if o.data_set_name { 8int } else { 0 }) + (if o.data_reference { 4int } else { 0 })
            + (if o.buffer_overflow { 2int } else { 0 }) + (if o.entry_id { 1int } else { 0 }),
        opt_flds_octets(o)[1] == (if o.conf_revision { 128int } else { 0 }) + (
        if o.segmentation { 64int } else { 0 }),
{
    reveal(opt_flds_octets);
    reveal(octet_of);
}

/// What triggers a report is six bits: 1 a change of data, 2 of quality, 3 an update, 4 the
/// integrity period and 5 a general interrogation.
pub proof fn lemma_triggers(a: u8, o: TrgOps)
    ensures
        ({
            let t = trg_ops_from(seq![a]);
            &&& t.data_change == (a / 64 % 2 == 1)
            &&& t.quality_change == (a / 32 % 2 == 1)
            &&& t.data_update == (a / 16 % 2 == 1)
            &&& t.integrity == (a / 8 % 2 == 1)
            &&& t.general_interrogation == (a / 4 % 2 == 1)
        }),
        trg_ops_octets(o).len() == 1,
        trg_ops_octets(o)[0] == (if o.data_change { 64int } else { 0 }) + (
        if o.quality_change { 32int } else { 0 }) + (if o.data_update { 16int } else { 0 }) + (
        if o.integrity { 8int } else { 0 }) + (if o.general_interrogation { 4int } else { 0 }),
{
    reveal(trg_ops_from);
    reveal(trg_ops_octets);
    reveal(octet_of);
}

/// Why an entry is in a report is seven bits: those that trigger it, and 6 the application.
pub proof fn lemma_reasons(a: u8, o: ReasonCode)
    ensures
        ({
            let t = reason_code_from(seq![a]);
            &&& t.data_change == (a / 64 % 2 == 1)
            &&& t.quality_change == (a / 32 % 2 == 1)
            &&& t.data_update == (a / 16 % 2 == 1)
            &&& t.integrity == (a / 8 % 2 == 1)
            &&& t.general_interrogation == (a / 4 % 2 == 1)
            &&& t.application_trigger == (a / 2 % 2 == 1)
        }),
        reason_code_octets(o).len() == 1,
        reason_code_octets(o)[0] == (if o.data_change { 64int } else { 0 }) + (
        if o.quality_change { 32int } else { 0 }) + (if o.data_update { 16int } else { 0 }) + (
        if o.integrity { 8int } else { 0 }) + (if o.general_interrogation { 4int } else { 0 }) + (
        if o.application_trigger { 2int } else { 0 }),
{
    reveal(reason_code_from);
    reveal(reason_code_octets);
    reveal(octet_of);
}

/// A quality is the first two octets, but for the two lowest bits.
pub proof fn lemma_quality(a: u8, b: u8, q: Quality)
    ensures
        quality_of_octets(seq![a, b]).bits == a * 256 + b - b % 4,
        quality_octets(q).len() == 2,
        quality_octets(q)[0] == q.bits / 256,
        quality_octets(q)[1] == q.bits % 256,
{
}

/// A time is four octets of seconds, three of a binary fraction and one of quality; in nanoseconds
/// the fraction is worth its 2^24th part of a second, rounded down.
pub proof fn lemma_time(seconds: u32, fraction: nat, quality: u8)
    requires
        fraction < 0x100_0000,
    ensures
        ({
            let t = UtcTime {
                raw: (seconds * 0x1_0000_0000 + fraction * 0x100 + quality) as u64,
            };
            &&& utc_seconds(t) == seconds
            &&& utc_fraction(t) == fraction
            &&& utc_nanos(t) == seconds * 1_000_000_000 + fraction * 1_000_000_000 / 0x100_0000
        }),
{
}

/// An entry time is four octets of milliseconds since midnight, then two of days since 1984, of
/// which the first began 5113 days after 1970.
pub proof fn lemma_entry_time(
    a: u8,
    b: u8,
    c: u8,
    d: u8,
    e: u8,
    f: u8,
    millis: u64,
)
    ensures
        entry_time_from(seq![a, b, c, d, e, f]).millis_of_day == a * 0x100_0000 + b * 0x1_0000 + c
            * 0x100 + d,
        entry_time_from(seq![a, b, c, d, e, f]).days_since_1984 == e * 0x100 + f,
        entry_time_of(millis).millis_of_day == millis % 86_400_000,
        5113 * 86_400_000 <= millis < (5113 + 65_536) * 86_400_000 ==> entry_time_of(
            millis,
        ).days_since_1984 == (millis - 5113 * 86_400_000) / 86_400_000,
        millis < 5113 * 86_400_000 ==> entry_time_of(millis).days_since_1984 == 0,
        millis >= (5113 + 65_536) * 86_400_000 ==> entry_time_of(millis).days_since_1984 == 65_535,
{
    let s = seq![a, b, c, d, e, f];
    assert(s.take(4) =~= seq![a, b, c, d]);
    assert(s.skip(4) =~= seq![e, f]);
    lemma_number_read(a, b, c, d);
    lemma_number_read(e, f, 0, 0);
}

/// The octets of an entry time.
pub proof fn lemma_entry_time_written(t: EntryTime)
    ensures
        entry_octets(t) == seq![
            (t.millis_of_day / 0x100_0000) as u8,
            (t.millis_of_day / 0x1_0000 % 0x100) as u8,
            (t.millis_of_day / 0x100 % 0x100) as u8,
            (t.millis_of_day % 0x100) as u8,
            (t.days_since_1984 / 0x100) as u8,
            (t.days_since_1984 % 0x100) as u8,
        ],
{
    reveal_with_fuel(be_fixed, 5);
    assert(entry_octets(t) =~= seq![
        (t.millis_of_day / 0x100_0000) as u8,
        (t.millis_of_day / 0x1_0000 % 0x100) as u8,
        (t.millis_of_day / 0x100 % 0x100) as u8,
        (t.millis_of_day % 0x100) as u8,
        (t.days_since_1984 / 0x100) as u8,
        (t.days_since_1984 % 0x100) as u8,
    ]);
}

/// A millisecond is a million nanoseconds, and the clock stops at its end.
pub proof fn lemma_milliseconds(t: Instant, ms: nat)
    ensures
        t.nanos + ms * 1_000_000 <= u64::MAX ==> later(t, ms).nanos == t.nanos + ms * 1_000_000,
        t.nanos + ms * 1_000_000 > u64::MAX ==> later(t, ms).nanos == u64::MAX,
{
}

/// The five control models and their codes.
pub proof fn lemma_control_models()
    ensures
        control_model_code(ControlModel::StatusOnly) == 0,
        control_model_code(ControlModel::DirectNormal) == 1,
        control_model_code(ControlModel::SboNormal) == 2,
        control_model_code(ControlModel::DirectEnhanced) == 3,
        control_model_code(ControlModel::SboEnhanced) == 4,
{
}

/// Bit `n` of a bit string, the most significant bit of the first octet being bit 0.
pub proof fn lemma_bits(b: Seq<u8>, i: nat)
    requires
        i < b.len(),
    ensures
        bit(b, 8 * i) == (b[i as int] / 128 == 1),
        bit(b, 8 * i + 1) == (b[i as int] / 64 % 2 == 1),
        bit(b, 8 * i + 2) == (b[i as int] / 32 % 2 == 1),
        bit(b, 8 * i + 3) == (b[i as int] / 16 % 2 == 1),
        bit(b, 8 * i + 4) == (b[i as int] / 8 % 2 == 1),
        bit(b, 8 * i + 5) == (b[i as int] / 4 % 2 == 1),
        bit(b, 8 * i + 6) == (b[i as int] / 2 % 2 == 1),
        bit(b, 8 * i + 7) == (b[i as int] % 2 == 1),
{
}

} // verus!
