//! Types every layer builds on.

pub mod mac;
pub mod queue;
pub mod text;
pub mod wire;

pub use mac::MacAddr;
pub use queue::EventQueue;

use vstd::prelude::*;
use vstd::slice::*;
use vstd::string::*;
use crate::ber::laws;
use crate::ber::{be_fixed, be_nat, be_u64, push_fixed};

verus! {

/// Why octets could not be decoded.
#[derive(Clone, Copy, Debug, PartialEq, Eq, Structural)]
pub enum DecodeReason {
    /// The octets end before the element does.
    Truncated,
    /// A length field that no decoder can use.
    BadLength,
    /// A tag number beyond 32 bits.
    BadTag,
    /// An element with another tag than the one that belongs here.
    UnexpectedTag,
    /// A required element is absent.
    MissingField,
    /// Contents that are not a value of the type.
    BadValue,
    /// Octets after the last element.
    TrailingBytes,
    /// An Ethernet frame that is neither GOOSE nor sampled values.
    NotProcessBusFrame,
}

/// What can go wrong anywhere in this crate.
#[derive(Clone, Copy, Debug, PartialEq, Eq)]
pub enum Error {
    /// Octets that could not be decoded, and where.
    Decode {
        /// Why.
        reason: DecodeReason,
        /// Offset of the offending element in the buffer being decoded.
        offset: usize,
    },
    /// A peer asked for more than a configured limit allows.
    LimitExceeded {
        /// The limit.
        limit: &'static str,
        /// What was asked for.
        value: usize,
    },
    /// A value that has no encoding.
    Encode(&'static str),
    /// A value that is not what its context calls for.
    InvalidValue(&'static str),
    /// Something that should be there is not.
    NotFound(&'static str),
    /// The server answered with this `DataAccessError`.
    DataAccess(i64),
    /// The peer rejected a PDU.
    Rejected {
        /// The request it names, if any.
        invoke_id: Option<i64>,
        /// The context tag of the reason table.
        tag: u32,
        /// The code in that table.
        code: i64,
    },
}

impl Error {
    /// A decode error.
    pub fn decode(reason: DecodeReason, offset: usize) -> (r: Error)
        ensures
            r == (Error::Decode { reason, offset }),
    {
        Error::Decode { reason, offset }
    }
}

/// A fallible result agrees with its model: the same success seen through the view, or the
/// same error.
pub open spec fn agrees<T: View>(r: Result<T, Error>, s: Result<T::V, Error>) -> bool {
    match r {
        Ok(v) => s == Ok::<T::V, Error>(v@),
        Err(e) => s == Err::<T::V, Error>(e),
    }
}

/// A fallible optional result agrees with its model.
pub open spec fn agrees_opt<T: View>(
    r: Result<Option<T>, Error>,
    s: Result<Option<T::V>, Error>,
) -> bool {
    match r {
        Ok(Some(v)) => s == Ok::<Option<T::V>, Error>(Some(v@)),
        Ok(None) => s == Ok::<Option<T::V>, Error>(None),
        Err(e) => s == Err::<Option<T::V>, Error>(e),
    }
}

/// `base + n`, stopping at the largest `usize`.
pub open spec fn sat_add(base: usize, n: nat) -> usize {
    if base + n > usize::MAX {
        usize::MAX
    } else {
        (base + n) as usize
    }
}

/// What a decoder accepts from a peer.
#[derive(Clone, Copy, Debug, PartialEq, Eq, Structural)]
pub struct Limits {
    /// How deep values and types may nest.
    pub max_depth: usize,
    /// The longest string or octet string.
    pub max_primitive_len: usize,
    /// The most members of a data set or a structure.
    pub max_dataset_members: usize,
    /// The most entries of a name list, a log or a directory.
    pub max_list_items: usize,
}

/// What an ordinary device stays within.
pub open spec fn default_limits() -> Limits {
    Limits {
        max_depth: 16,
        max_primitive_len: 65_535,
        max_dataset_members: 512,
        max_list_items: 16_384,
    }
}

impl Default for Limits {
    fn default() -> (r: Limits)
        ensures
            r == default_limits(),
    {
        Limits {
            max_depth: 16,
            max_primitive_len: 65_535,
            max_dataset_members: 512,
            max_list_items: 16_384,
        }
    }
}

/// A point on the caller's monotonic clock, in nanoseconds.
#[derive(Clone, Copy, Debug, PartialEq, Eq, Structural)]
pub struct Instant {
    /// Nanoseconds since the clock's own origin.
    pub nanos: u64,
}

/// The instant `ms` milliseconds after `t`, stopping at the end of the clock.
pub open spec fn later(t: Instant, ms: nat) -> Instant {
    Instant {
        nanos: if t.nanos + ms * 1_000_000 > u64::MAX {
            u64::MAX
        } else {
            (t.nanos + ms * 1_000_000) as u64
        },
    }
}

impl Instant {
    /// The clock's origin.
    pub fn zero() -> (r: Instant)
        ensures
            r.nanos == 0,
    {
        Instant { nanos: 0 }
    }

    /// This instant and `ms` milliseconds.
    pub fn plus_millis(self, ms: u64) -> (r: Instant)
        ensures
            r == later(self, ms as nat),
    {
        let total: u128 = self.nanos as u128 + ms as u128 * 1_000_000;
        if total > u64::MAX as u128 {
            Instant { nanos: u64::MAX }
        } else {
            Instant { nanos: total as u64 }
        }
    }

    /// Nanoseconds from `earlier` to this instant, zero if it is not earlier.
    pub fn nanos_since(self, earlier: Instant) -> (r: u64)
        ensures
            r == if self.nanos >= earlier.nanos { self.nanos - earlier.nanos } else { 0 },
    {
        self.nanos.saturating_sub(earlier.nanos)
    }
}

/// The quality octet of a [`UtcTime`].
#[derive(Clone, Copy, Debug, PartialEq, Eq, Structural)]
pub struct TimeQuality {
    /// Leap seconds known, clock failure, clock not synchronised, and five bits of accuracy.
    pub bits: u8,
}

impl TimeQuality {
    /// A synchronised clock, leap seconds known, ten bits of accuracy.
    pub fn synchronized() -> (r: TimeQuality)
        ensures
            r.bits == 0x8A,
    {
        TimeQuality { bits: 0x8A }
    }
}

/// The IEC 61850 `Timestamp`: eight octets, read as one big-endian number.
///
/// Four octets of seconds since 1970, three octets of binary fraction, one octet of quality.
#[derive(Clone, Copy, Debug, PartialEq, Eq, Structural)]
pub struct UtcTime {
    /// The eight octets.
    pub raw: u64,
}

/// The seconds of a timestamp.
pub open spec fn utc_seconds(t: UtcTime) -> nat {
    t.raw as nat / 0x1_0000_0000
}

/// The 24-bit fraction of a timestamp.
pub open spec fn utc_fraction(t: UtcTime) -> nat {
    (t.raw as nat / 0x100) % 0x100_0000
}

/// Nanoseconds since 1970, the fraction rounded down.
pub open spec fn utc_nanos(t: UtcTime) -> nat {
    utc_seconds(t) * 1_000_000_000 + utc_fraction(t) * 1_000_000_000 / 0x100_0000
}

impl Default for UtcTime {
    fn default() -> (r: UtcTime)
        ensures
            r.raw == 0,
    {
        UtcTime { raw: 0 }
    }
}

impl UtcTime {
    /// From seconds and nanoseconds since 1970, the fraction rounded down to 2^-24 s.
    pub fn from_unix(secs: u32, nanos: u32, quality: TimeQuality) -> (r: UtcTime)
        requires
            nanos < 1_000_000_000,
        ensures
            utc_seconds(r) == secs,
            utc_fraction(r) == nanos as nat * 0x100_0000 / 1_000_000_000,
            r.raw % 0x100 == quality.bits,
    {
        let fraction: u64 = nanos as u64 * 0x100_0000 / 1_000_000_000;
        assert(fraction < 0x100_0000);
        UtcTime {
            raw: secs as u64 * 0x1_0000_0000 + fraction * 0x100 + quality.bits as u64,
        }
    }

    /// Nanoseconds since 1970.
    pub fn to_unix_nanos(self) -> (r: u64)
        ensures
            r == utc_nanos(self),
    {
        let secs: u64 = self.raw / 0x1_0000_0000;
        let fraction: u64 = (self.raw / 0x100) % 0x100_0000;
        assert(fraction * 1_000_000_000 / 0x100_0000 < 1_000_000_000);
        secs * 1_000_000_000 + fraction * 1_000_000_000 / 0x100_0000
    }
}

/// An MMS `BinaryTime` with a date.
#[derive(Clone, Copy, Debug, Default, PartialEq, Eq, PartialOrd, Ord, Hash, Structural)]
pub struct EntryTime {
    /// Milliseconds since midnight.
    pub millis_of_day: u32,
    /// Days since 1984-01-01.
    pub days_since_1984: u16,
}

/// Milliseconds since 1970 as a day count and a time of day. Times before 1984 count as the
/// first day, and days beyond the 16-bit field as the last.
pub open spec fn entry_time_of(millis: u64) -> EntryTime {
    let days = millis / 86_400_000 - 5113;
    EntryTime {
        millis_of_day: (millis % 86_400_000) as u32,
        days_since_1984: if days < 0 {
            0
        } else if days > u16::MAX {
            u16::MAX
        } else {
            days as u16
        },
    }
}

/// The time that six octets carry: four of milliseconds, two of days.
pub open spec fn entry_time_from(b: Seq<u8>) -> EntryTime {
    EntryTime {
        millis_of_day: be_nat(b.take(4)) as u32,
        days_since_1984: be_nat(b.skip(4)) as u16,
    }
}

/// The six octets of a time.
pub open spec fn entry_octets(t: EntryTime) -> Seq<u8> {
    be_fixed(t.millis_of_day as nat, 4) + be_fixed(t.days_since_1984 as nat, 2)
}

/// A time survives its six octets.
pub proof fn lemma_entry_time_round_trip(t: EntryTime)
    ensures
        entry_octets(t).len() == 6,
        entry_time_from(entry_octets(t)) == t,
{
    laws::lemma_be_fixed(t.millis_of_day as nat, 4);
    laws::lemma_be_fixed(t.days_since_1984 as nat, 2);
    laws::lemma_pow256();
    assert(entry_octets(t).take(4) =~= be_fixed(t.millis_of_day as nat, 4));
    assert(entry_octets(t).skip(4) =~= be_fixed(t.days_since_1984 as nat, 2));
}

impl EntryTime {
    /// From the octets of a `BinaryTime` with a date, of which there are six.
    pub fn from_octets(bytes: &[u8]) -> (r: Option<EntryTime>)
        ensures
            r == if bytes@.len() == 6 { Some(entry_time_from(bytes@)) } else { None },
    {
        if bytes.len() != 6 {
            return None;
        }
        let millis = slice_subrange(bytes, 0, 4);
        let days = slice_subrange(bytes, 4, 6);
        assert(millis@ =~= bytes@.take(4));
        assert(days@ =~= bytes@.skip(4));
        proof {
            laws::lemma_be_nat_bound(millis@);
            laws::lemma_be_nat_bound(days@);
            laws::lemma_pow256();
        }
        Some(
            EntryTime {
                millis_of_day: be_u64(millis) as u32,
                days_since_1984: be_u64(days) as u16,
            },
        )
    }

    /// The six octets.
    pub fn to_octets(self) -> (r: Vec<u8>)
        ensures
            r@ == entry_octets(self),
    {
        let mut out: Vec<u8> = Vec::new();
        push_fixed(&mut out, self.millis_of_day as u64, 4);
        push_fixed(&mut out, self.days_since_1984 as u64, 2);
        assert(out@ =~= entry_octets(self));
        out
    }

    /// From milliseconds since 1970.
    pub fn from_unix_millis(millis: u64) -> (r: EntryTime)
        ensures
            r == entry_time_of(millis),
    {
        let days: u64 = (millis / 86_400_000).saturating_sub(5113);
        EntryTime {
            millis_of_day: (millis % 86_400_000) as u32,
            days_since_1984: if days > u16::MAX as u64 {
                u16::MAX
            } else {
                days as u16
            },
        }
    }
}

/// IEC 61850-7-3 `Quality`: the fourteen bits the wire carries, in two octets.
#[derive(Clone, Copy, Debug, PartialEq, Eq, Structural)]
pub struct Quality {
    /// The two octets as one number. The two low bits are not part of the quality.
    pub bits: u16,
}

/// The quality that the first two octets carry; octets that are not there read as zero.
pub open spec fn quality_of_octets(b: Seq<u8>) -> Quality {
    let hi = if b.len() > 0 { b[0] as nat } else { 0 };
    let lo = if b.len() > 1 { b[1] as nat } else { 0 };
    Quality { bits: (hi * 256 + lo - lo % 4) as u16 }
}

/// The two octets of a quality.
pub open spec fn quality_octets(q: Quality) -> Seq<u8> {
    seq![(q.bits / 256) as u8, (q.bits % 256) as u8]
}

impl Quality {
    /// Valid, from the process, nothing wrong.
    pub fn good() -> (r: Quality)
        ensures
            r.bits == 0,
    {
        Quality { bits: 0 }
    }

    /// From bit-string contents.
    pub fn from_octets(bytes: &[u8]) -> (r: Quality)
        ensures
            r == quality_of_octets(bytes@),
    {
        let hi: u16 = if bytes.len() > 0 { bytes[0] as u16 } else { 0 };
        let lo: u16 = if bytes.len() > 1 { bytes[1] as u16 } else { 0 };
        Quality { bits: hi * 256 + (lo - lo % 4) }
    }

    /// The two octets.
    pub fn to_octets(self) -> (r: [u8; 2])
        ensures
            r@ == quality_octets(self),
    {
        let r: [u8; 2] = [(self.bits / 256) as u8, (self.bits % 256) as u8];
        assert(r@ =~= quality_octets(self));
        r
    }
}

/// A quality that keeps to its fourteen bits survives the wire.
pub proof fn lemma_quality_round_trip(q: Quality)
    requires
        q.bits % 4 == 0,
    ensures
        quality_of_octets(quality_octets(q)) == q,
{
    let lo = q.bits % 256;
    assert(lo % 4 == 0);
}

/// One step of a path into a variable.
#[derive(Clone, Copy, Debug, PartialEq, Eq)]
pub enum Selector<'a> {
    /// A component of a structure, by name.
    Component(&'a str),
    /// An element of an array.
    Index(u32),
    /// Consecutive elements of an array.
    IndexRange {
        /// The first.
        low: u32,
        /// How many.
        count: u32,
    },
    /// Every element of an array.
    AllElements,
}

/// What a [`Selector`] stands for.
pub enum SelectorModel {
    Component(Seq<char>),
    Index(u32),
    IndexRange { low: u32, count: u32 },
    AllElements,
}

impl<'a> View for Selector<'a> {
    type V = SelectorModel;

    open spec fn view(&self) -> SelectorModel {
        match *self {
            Selector::Component(s) => SelectorModel::Component(s@),
            Selector::Index(i) => SelectorModel::Index(i),
            Selector::IndexRange { low, count } => SelectorModel::IndexRange { low, count },
            Selector::AllElements => SelectorModel::AllElements,
        }
    }
}

// ---- text ------------------------------------------------------------------------------

/// A decimal digit.
pub open spec fn digit(d: nat) -> char {
    (48 + d) as u8 as char
}

/// A number in decimal.
pub open spec fn decimal(n: nat) -> Seq<char>
    decreases n,
{
    if n < 10 {
        seq![digit(n)]
    } else {
        decimal(n / 10).push(digit(n % 10))
    }
}

/// A signed number in decimal.
pub open spec fn signed_decimal(n: int) -> Seq<char> {
    if n < 0 {
        seq!['-'] + decimal((-n) as nat)
    } else {
        decimal(n as nat)
    }
}

/// Append text.
pub fn push_text(out: &mut String, s: &str)
    ensures
        final(out)@ == old(out)@ + s@,
{
    out.append(s);
}

fn push_digit(out: &mut String, d: u64)
    requires
        d < 10,
    ensures
        final(out)@ == old(out)@.push(digit(d as nat)),
{
    proof {
        reveal_strlit("0");
        reveal_strlit("1");
        reveal_strlit("2");
        reveal_strlit("3");
        reveal_strlit("4");
        reveal_strlit("5");
        reveal_strlit("6");
        reveal_strlit("7");
        reveal_strlit("8");
        reveal_strlit("9");
    }
    let s: &str = match d {
        0 => "0",
        1 => "1",
        2 => "2",
        3 => "3",
        4 => "4",
        5 => "5",
        6 => "6",
        7 => "7",
        8 => "8",
        _ => "9",
    };
    assert(s@ =~= seq![digit(d as nat)]);
    push_text(out, s);
    assert(out@ =~= old(out)@.push(digit(d as nat)));
}

/// Append a number in decimal.
pub fn push_decimal(out: &mut String, n: u64)
    ensures
        final(out)@ == old(out)@ + decimal(n as nat),
    decreases n,
{
    if n >= 10 {
        push_decimal(out, n / 10);
    }
    push_digit(out, n % 10);
    assert(out@ =~= old(out)@ + decimal(n as nat));
}

/// Append a signed number in decimal.
pub fn push_signed_decimal(out: &mut String, n: i64)
    ensures
        final(out)@ == old(out)@ + signed_decimal(n as int),
{
    if n < 0 {
        proof {
            reveal_strlit("-");
        }
        push_text(out, "-");
        assert("-"@ =~= seq!['-']);
        let m: u64 = (-(n + 1)) as u64 + 1;
        push_decimal(out, m);
        assert(out@ =~= old(out)@ + signed_decimal(n as int));
    } else {
        push_decimal(out, n as u64);
    }
}

// ---- packed options --------------------------------------------------------------------

/// What bit `k` of an octet counts for, the most significant first.
pub open spec fn weight(k: nat) -> nat {
    if k == 0 {
        128
    } else if k == 1 {
        64
    } else if k == 2 {
        32
    } else if k == 3 {
        16
    } else if k == 4 {
        8
    } else if k == 5 {
        4
    } else if k == 6 {
        2
    } else {
        1
    }
}

/// Bit `n` of a bit string, the most significant of the first octet being bit 0. Bits beyond
/// the octets are not set.
pub open spec fn bit(b: Seq<u8>, n: nat) -> bool {
    n / 8 < b.len() && (b[(n / 8) as int] as nat / weight(n % 8)) % 2 == 1
}

/// What a bit contributes to its octet.
pub open spec fn at_bit(set: bool, k: nat) -> nat {
    if set {
        weight(k)
    } else {
        0
    }
}

/// What bit `k` of an octet counts for.
pub fn weight_of(k: usize) -> (r: u8)
    requires
        k < 8,
    ensures
        r == weight(k as nat),
{
    match k {
        0 => 128,
        1 => 64,
        2 => 32,
        3 => 16,
        4 => 8,
        5 => 4,
        6 => 2,
        _ => 1,
    }
}

/// Bit `n` of a bit string.
pub fn bit_at(b: &[u8], n: usize) -> (r: bool)
    ensures
        r == bit(b@, n as nat),
{
    n / 8 < b.len() && (b[n / 8] / weight_of(n % 8)) % 2 == 1
}

/// The octet whose bits these are, the most significant first.
#[verifier::opaque]
pub open spec fn octet_of(
    b0: bool,
    b1: bool,
    b2: bool,
    b3: bool,
    b4: bool,
    b5: bool,
    b6: bool,
    b7: bool,
) -> nat {
    at_bit(b0, 0) + at_bit(b1, 1) + at_bit(b2, 2) + at_bit(b3, 3) + at_bit(b4, 4) + at_bit(b5, 5)
        + at_bit(b6, 6) + at_bit(b7, 7)
}

fn octet(
    b0: bool,
    b1: bool,
    b2: bool,
    b3: bool,
    b4: bool,
    b5: bool,
    b6: bool,
    b7: bool,
) -> (r: u8)
    ensures
        r == octet_of(b0, b1, b2, b3, b4, b5, b6, b7),
{
    reveal(octet_of);
    bit_value(b0, 0) + bit_value(b1, 1) + bit_value(b2, 2) + bit_value(b3, 3) + bit_value(b4, 4)
        + bit_value(b5, 5) + bit_value(b6, 6) + bit_value(b7, 7)
}

/// Every bit of an octet reads back from the sum of what they count for.
proof fn lemma_octet(
    b0: bool,
    b1: bool,
    b2: bool,
    b3: bool,
    b4: bool,
    b5: bool,
    b6: bool,
    b7: bool,
)
    ensures
        ({
            let v = octet_of(b0, b1, b2, b3, b4, b5, b6, b7);
            &&& v < 256
            &&& (v / 128) % 2 == 1 <==> b0
            &&& (v / 64) % 2 == 1 <==> b1
            &&& (v / 32) % 2 == 1 <==> b2
            &&& (v / 16) % 2 == 1 <==> b3
            &&& (v / 8) % 2 == 1 <==> b4
            &&& (v / 4) % 2 == 1 <==> b5
            &&& (v / 2) % 2 == 1 <==> b6
            &&& v % 2 == 1 <==> b7
        }),
{
    reveal(octet_of);
    let v = octet_of(b0, b1, b2, b3, b4, b5, b6, b7);
    let (a0, a1, a2, a3) = (at_bit(b0, 7), at_bit(b1, 7), at_bit(b2, 7), at_bit(b3, 7));
    let (a4, a5, a6, a7) = (at_bit(b4, 7), at_bit(b5, 7), at_bit(b6, 7), at_bit(b7, 7));
    let h1 = 2 * a0 + a1;
    let h2 = 2 * h1 + a2;
    let h3 = 2 * h2 + a3;
    let h4 = 2 * h3 + a4;
    let h5 = 2 * h4 + a5;
    let h6 = 2 * h5 + a6;
    assert(v == 2 * h6 + a7);
    assert(v / 2 == h6);
    assert(v / 4 == h5);
    assert(v / 8 == h4);
    assert(v / 16 == h3);
    assert(v / 32 == h2);
    assert(v / 64 == h1);
    assert(v / 128 == a0);
}

fn bit_value(set: bool, k: usize) -> (r: u8)
    requires
        k < 8,
    ensures
        r == at_bit(set, k as nat),
{
    if set {
        weight_of(k)
    } else {
        0
    }
}

/// Which optional fields a report carries: ten bits, bit 0 reserved.
#[derive(Clone, Copy, Debug, PartialEq, Eq, Structural)]
pub struct OptFlds {
    /// `SqNum`.
    pub sequence_number: bool,
    /// `TimeOfEntry`.
    pub report_time_stamp: bool,
    /// A reason code per entry.
    pub reason_for_inclusion: bool,
    /// `DatSet`.
    pub data_set_name: bool,
    /// A data reference per entry.
    pub data_reference: bool,
    /// `BufOvfl`.
    pub buffer_overflow: bool,
    /// `EntryID`.
    pub entry_id: bool,
    /// `ConfRev`.
    pub conf_revision: bool,
    /// `SubSeqNum` and `MoreSegmentsFollow`.
    pub segmentation: bool,
}

/// The octets of a [`OptFlds`] bit string.
#[verifier::opaque]
pub open spec fn opt_flds_octets(o: OptFlds) -> Seq<u8> {
    seq![
        octet_of(
            false,
            o.sequence_number,
            o.report_time_stamp,
            o.reason_for_inclusion,
            o.data_set_name,
            o.data_reference,
            o.buffer_overflow,
            o.entry_id,
        ) as u8,
        octet_of(o.conf_revision, o.segmentation, false, false, false, false, false, false) as u8,
    ]
}

/// The [`OptFlds`] that bit-string contents carry.
#[verifier::opaque]
pub open spec fn opt_flds_from(b: Seq<u8>) -> OptFlds {
    OptFlds {
        sequence_number: bit(b, 1),
        report_time_stamp: bit(b, 2),
        reason_for_inclusion: bit(b, 3),
        data_set_name: bit(b, 4),
        data_reference: bit(b, 5),
        buffer_overflow: bit(b, 6),
        entry_id: bit(b, 7),
        conf_revision: bit(b, 8),
        segmentation: bit(b, 9),
    }
}

/// A [`OptFlds`] survives its bit string.
pub proof fn lemma_opt_flds_round_trip(o: OptFlds)
    ensures
        opt_flds_from(opt_flds_octets(o)) == o,
{
    reveal(opt_flds_octets);
    reveal(opt_flds_from);
    lemma_octet(
        false,
        o.sequence_number,
        o.report_time_stamp,
        o.reason_for_inclusion,
        o.data_set_name,
        o.data_reference,
        o.buffer_overflow,
        o.entry_id,
    );
    lemma_octet(o.conf_revision, o.segmentation, false, false, false, false, false, false);
}

impl OptFlds {
    /// None of them.
    pub fn none() -> (r: OptFlds)
        ensures
            r == (OptFlds {
                sequence_number: false,
                report_time_stamp: false,
                reason_for_inclusion: false,
                data_set_name: false,
                data_reference: false,
                buffer_overflow: false,
                entry_id: false,
                conf_revision: false,
                segmentation: false,
            }),
    {
        OptFlds {
            sequence_number: false,
            report_time_stamp: false,
            reason_for_inclusion: false,
            data_set_name: false,
            data_reference: false,
            buffer_overflow: false,
            entry_id: false,
            conf_revision: false,
            segmentation: false,
        }
    }

    /// `SqNum`.
    pub fn sequence_number(self) -> (r: bool)
        ensures
            r == self.sequence_number,
    {
        self.sequence_number
    }

    /// `SqNum`.
    pub fn with_sequence_number(self, on: bool) -> (r: OptFlds)
        ensures
            r == (OptFlds { sequence_number: on, ..self }),
    {
        let mut r = self;
        r.sequence_number = on;
        r
    }

    /// `TimeOfEntry`.
    pub fn report_time_stamp(self) -> (r: bool)
        ensures
            r == self.report_time_stamp,
    {
        self.report_time_stamp
    }

    /// `TimeOfEntry`.
    pub fn with_report_time_stamp(self, on: bool) -> (r: OptFlds)
        ensures
            r == (OptFlds { report_time_stamp: on, ..self }),
    {
        let mut r = self;
        r.report_time_stamp = on;
        r
    }

    /// A reason code per entry.
    pub fn reason_for_inclusion(self) -> (r: bool)
        ensures
            r == self.reason_for_inclusion,
    {
        self.reason_for_inclusion
    }

    /// A reason code per entry.
    pub fn with_reason_for_inclusion(self, on: bool) -> (r: OptFlds)
        ensures
            r == (OptFlds { reason_for_inclusion: on, ..self }),
    {
        let mut r = self;
        r.reason_for_inclusion = on;
        r
    }

    /// `DatSet`.
    pub fn data_set_name(self) -> (r: bool)
        ensures
            r == self.data_set_name,
    {
        self.data_set_name
    }

    /// `DatSet`.
    pub fn with_data_set_name(self, on: bool) -> (r: OptFlds)
        ensures
            r == (OptFlds { data_set_name: on, ..self }),
    {
        let mut r = self;
        r.data_set_name = on;
        r
    }

    /// A data reference per entry.
    pub fn data_reference(self) -> (r: bool)
        ensures
            r == self.data_reference,
    {
        self.data_reference
    }

    /// A data reference per entry.
    pub fn with_data_reference(self, on: bool) -> (r: OptFlds)
        ensures
            r == (OptFlds { data_reference: on, ..self }),
    {
        let mut r = self;
        r.data_reference = on;
        r
    }

    /// `BufOvfl`.
    pub fn buffer_overflow(self) -> (r: bool)
        ensures
            r == self.buffer_overflow,
    {
        self.buffer_overflow
    }

    /// `BufOvfl`.
    pub fn with_buffer_overflow(self, on: bool) -> (r: OptFlds)
        ensures
            r == (OptFlds { buffer_overflow: on, ..self }),
    {
        let mut r = self;
        r.buffer_overflow = on;
        r
    }

    /// `EntryID`.
    pub fn entry_id(self) -> (r: bool)
        ensures
            r == self.entry_id,
    {
        self.entry_id
    }

    /// `EntryID`.
    pub fn with_entry_id(self, on: bool) -> (r: OptFlds)
        ensures
            r == (OptFlds { entry_id: on, ..self }),
    {
        let mut r = self;
        r.entry_id = on;
        r
    }

    /// `ConfRev`.
    pub fn conf_revision(self) -> (r: bool)
        ensures
            r == self.conf_revision,
    {
        self.conf_revision
    }

    /// `ConfRev`.
    pub fn with_conf_revision(self, on: bool) -> (r: OptFlds)
        ensures
            r == (OptFlds { conf_revision: on, ..self }),
    {
        let mut r = self;
        r.conf_revision = on;
        r
    }

    /// `SubSeqNum` and `MoreSegmentsFollow`.
    pub fn segmentation(self) -> (r: bool)
        ensures
            r == self.segmentation,
    {
        self.segmentation
    }

    /// `SubSeqNum` and `MoreSegmentsFollow`.
    pub fn with_segmentation(self, on: bool) -> (r: OptFlds)
        ensures
            r == (OptFlds { segmentation: on, ..self }),
    {
        let mut r = self;
        r.segmentation = on;
        r
    }

    /// The bit string: the number of unused bits, and the octets.
    pub fn to_bit_string(self) -> (r: (u8, Vec<u8>))
        ensures
            r.0 == 6,
            r.1@ == opt_flds_octets(self),
    {
        reveal(opt_flds_octets);
        let mut bytes: Vec<u8> = Vec::new();
        bytes.push(octet(
            false,
            self.sequence_number,
            self.report_time_stamp,
            self.reason_for_inclusion,
            self.data_set_name,
            self.data_reference,
            self.buffer_overflow,
            self.entry_id,
        ));
        bytes.push(octet(
            self.conf_revision,
            self.segmentation,
            false,
            false,
            false,
            false,
            false,
            false,
        ));
        assert(bytes@ =~= opt_flds_octets(self));
        (6, bytes)
    }

    /// From bit-string contents.
    pub fn from_bit_string(bytes: &[u8]) -> (r: OptFlds)
        ensures
            r == opt_flds_from(bytes@),
    {
        reveal(opt_flds_from);
        OptFlds {
            sequence_number: bit_at(bytes, 1),
            report_time_stamp: bit_at(bytes, 2),
            reason_for_inclusion: bit_at(bytes, 3),
            data_set_name: bit_at(bytes, 4),
            data_reference: bit_at(bytes, 5),
            buffer_overflow: bit_at(bytes, 6),
            entry_id: bit_at(bytes, 7),
            conf_revision: bit_at(bytes, 8),
            segmentation: bit_at(bytes, 9),
        }
    }
}

/// What triggers a report: six bits, bit 0 reserved.
#[derive(Clone, Copy, Debug, PartialEq, Eq, Structural)]
pub struct TrgOps {
    /// A value changed.
    pub data_change: bool,
    /// A quality changed.
    pub quality_change: bool,
    /// A value was written.
    pub data_update: bool,
    /// The integrity period elapsed.
    pub integrity: bool,
    /// A client asked.
    pub general_interrogation: bool,
}

/// The octets of a [`TrgOps`] bit string.
#[verifier::opaque]
pub open spec fn trg_ops_octets(o: TrgOps) -> Seq<u8> {
    seq![
        octet_of(
            false,
            o.data_change,
            o.quality_change,
            o.data_update,
            o.integrity,
            o.general_interrogation,
            false,
            false,
        ) as u8,
    ]
}

/// The [`TrgOps`] that bit-string contents carry.
#[verifier::opaque]
pub open spec fn trg_ops_from(b: Seq<u8>) -> TrgOps {
    TrgOps {
        data_change: bit(b, 1),
        quality_change: bit(b, 2),
        data_update: bit(b, 3),
        integrity: bit(b, 4),
        general_interrogation: bit(b, 5),
    }
}

/// A [`TrgOps`] survives its bit string.
pub proof fn lemma_trg_ops_round_trip(o: TrgOps)
    ensures
        trg_ops_from(trg_ops_octets(o)) == o,
{
    reveal(trg_ops_octets);
    reveal(trg_ops_from);
    lemma_octet(
        false,
        o.data_change,
        o.quality_change,
        o.data_update,
        o.integrity,
        o.general_interrogation,
        false,
        false,
    );
}

impl TrgOps {
    /// None of them.
    pub fn none() -> (r: TrgOps)
        ensures
            r == (TrgOps {
                data_change: false,
                quality_change: false,
                data_update: false,
                integrity: false,
                general_interrogation: false,
            }),
    {
        TrgOps {
            data_change: false,
            quality_change: false,
            data_update: false,
            integrity: false,
            general_interrogation: false,
        }
    }

    /// A value changed.
    pub fn data_change(self) -> (r: bool)
        ensures
            r == self.data_change,
    {
        self.data_change
    }

    /// A value changed.
    pub fn with_data_change(self, on: bool) -> (r: TrgOps)
        ensures
            r == (TrgOps { data_change: on, ..self }),
    {
        let mut r = self;
        r.data_change = on;
        r
    }

    /// A quality changed.
    pub fn quality_change(self) -> (r: bool)
        ensures
            r == self.quality_change,
    {
        self.quality_change
    }

    /// A quality changed.
    pub fn with_quality_change(self, on: bool) -> (r: TrgOps)
        ensures
            r == (TrgOps { quality_change: on, ..self }),
    {
        let mut r = self;
        r.quality_change = on;
        r
    }

    /// A value was written.
    pub fn data_update(self) -> (r: bool)
        ensures
            r == self.data_update,
    {
        self.data_update
    }

    /// A value was written.
    pub fn with_data_update(self, on: bool) -> (r: TrgOps)
        ensures
            r == (TrgOps { data_update: on, ..self }),
    {
        let mut r = self;
        r.data_update = on;
        r
    }

    /// The integrity period elapsed.
    pub fn integrity(self) -> (r: bool)
        ensures
            r == self.integrity,
    {
        self.integrity
    }

    /// The integrity period elapsed.
    pub fn with_integrity(self, on: bool) -> (r: TrgOps)
        ensures
            r == (TrgOps { integrity: on, ..self }),
    {
        let mut r = self;
        r.integrity = on;
        r
    }

    /// A client asked.
    pub fn general_interrogation(self) -> (r: bool)
        ensures
            r == self.general_interrogation,
    {
        self.general_interrogation
    }

    /// A client asked.
    pub fn with_general_interrogation(self, on: bool) -> (r: TrgOps)
        ensures
            r == (TrgOps { general_interrogation: on, ..self }),
    {
        let mut r = self;
        r.general_interrogation = on;
        r
    }

    /// The bit string: the number of unused bits, and the octets.
    pub fn to_bit_string(self) -> (r: (u8, Vec<u8>))
        ensures
            r.0 == 2,
            r.1@ == trg_ops_octets(self),
    {
        reveal(trg_ops_octets);
        let mut bytes: Vec<u8> = Vec::new();
        bytes.push(octet(
            false,
            self.data_change,
            self.quality_change,
            self.data_update,
            self.integrity,
            self.general_interrogation,
            false,
            false,
        ));
        assert(bytes@ =~= trg_ops_octets(self));
        (2, bytes)
    }

    /// From bit-string contents.
    pub fn from_bit_string(bytes: &[u8]) -> (r: TrgOps)
        ensures
            r == trg_ops_from(bytes@),
    {
        reveal(trg_ops_from);
        TrgOps {
            data_change: bit_at(bytes, 1),
            quality_change: bit_at(bytes, 2),
            data_update: bit_at(bytes, 3),
            integrity: bit_at(bytes, 4),
            general_interrogation: bit_at(bytes, 5),
        }
    }
}

/// Why an entry is in a report: seven bits, bit 0 reserved.
#[derive(Clone, Copy, Debug, PartialEq, Eq, Structural)]
pub struct ReasonCode {
    /// A value changed.
    pub data_change: bool,
    /// A quality changed.
    pub quality_change: bool,
    /// A value was written.
    pub data_update: bool,
    /// The integrity period elapsed.
    pub integrity: bool,
    /// A client asked.
    pub general_interrogation: bool,
    /// The application asked.
    pub application_trigger: bool,
}

/// The octets of a [`ReasonCode`] bit string.
#[verifier::opaque]
pub open spec fn reason_code_octets(o: ReasonCode) -> Seq<u8> {
    seq![
        octet_of(
            false,
            o.data_change,
            o.quality_change,
            o.data_update,
            o.integrity,
            o.general_interrogation,
            o.application_trigger,
            false,
        ) as u8,
    ]
}

/// The [`ReasonCode`] that bit-string contents carry.
#[verifier::opaque]
pub open spec fn reason_code_from(b: Seq<u8>) -> ReasonCode {
    ReasonCode {
        data_change: bit(b, 1),
        quality_change: bit(b, 2),
        data_update: bit(b, 3),
        integrity: bit(b, 4),
        general_interrogation: bit(b, 5),
        application_trigger: bit(b, 6),
    }
}

/// A [`ReasonCode`] survives its bit string.
pub proof fn lemma_reason_code_round_trip(o: ReasonCode)
    ensures
        reason_code_from(reason_code_octets(o)) == o,
{
    reveal(reason_code_octets);
    reveal(reason_code_from);
    lemma_octet(
        false,
        o.data_change,
        o.quality_change,
        o.data_update,
        o.integrity,
        o.general_interrogation,
        o.application_trigger,
        false,
    );
}

impl ReasonCode {
    /// None of them.
    pub fn none() -> (r: ReasonCode)
        ensures
            r == (ReasonCode {
                data_change: false,
                quality_change: false,
                data_update: false,
                integrity: false,
                general_interrogation: false,
                application_trigger: false,
            }),
    {
        ReasonCode {
            data_change: false,
            quality_change: false,
            data_update: false,
            integrity: false,
            general_interrogation: false,
            application_trigger: false,
        }
    }

    /// A value changed.
    pub fn data_change(self) -> (r: bool)
        ensures
            r == self.data_change,
    {
        self.data_change
    }

    /// A value changed.
    pub fn with_data_change(self, on: bool) -> (r: ReasonCode)
        ensures
            r == (ReasonCode { data_change: on, ..self }),
    {
        let mut r = self;
        r.data_change = on;
        r
    }

    /// A quality changed.
    pub fn quality_change(self) -> (r: bool)
        ensures
            r == self.quality_change,
    {
        self.quality_change
    }

    /// A quality changed.
    pub fn with_quality_change(self, on: bool) -> (r: ReasonCode)
        ensures
            r == (ReasonCode { quality_change: on, ..self }),
    {
        let mut r = self;
        r.quality_change = on;
        r
    }

    /// A value was written.
    pub fn data_update(self) -> (r: bool)
        ensures
            r == self.data_update,
    {
        self.data_update
    }

    /// A value was written.
    pub fn with_data_update(self, on: bool) -> (r: ReasonCode)
        ensures
            r == (ReasonCode { data_update: on, ..self }),
    {
        let mut r = self;
        r.data_update = on;
        r
    }

    /// The integrity period elapsed.
    pub fn integrity(self) -> (r: bool)
        ensures
            r == self.integrity,
    {
        self.integrity
    }

    /// The integrity period elapsed.
    pub fn with_integrity(self, on: bool) -> (r: ReasonCode)
        ensures
            r == (ReasonCode { integrity: on, ..self }),
    {
        let mut r = self;
        r.integrity = on;
        r
    }

    /// A client asked.
    pub fn general_interrogation(self) -> (r: bool)
        ensures
            r == self.general_interrogation,
    {
        self.general_interrogation
    }

    /// A client asked.
    pub fn with_general_interrogation(self, on: bool) -> (r: ReasonCode)
        ensures
            r == (ReasonCode { general_interrogation: on, ..self }),
    {
        let mut r = self;
        r.general_interrogation = on;
        r
    }

    /// The application asked.
    pub fn application_trigger(self) -> (r: bool)
        ensures
            r == self.application_trigger,
    {
        self.application_trigger
    }

    /// The application asked.
    pub fn with_application_trigger(self, on: bool) -> (r: ReasonCode)
        ensures
            r == (ReasonCode { application_trigger: on, ..self }),
    {
        let mut r = self;
        r.application_trigger = on;
        r
    }

    /// The bit string: the number of unused bits, and the octets.
    pub fn to_bit_string(self) -> (r: (u8, Vec<u8>))
        ensures
            r.0 == 1,
            r.1@ == reason_code_octets(self),
    {
        reveal(reason_code_octets);
        let mut bytes: Vec<u8> = Vec::new();
        bytes.push(octet(
            false,
            self.data_change,
            self.quality_change,
            self.data_update,
            self.integrity,
            self.general_interrogation,
            self.application_trigger,
            false,
        ));
        assert(bytes@ =~= reason_code_octets(self));
        (1, bytes)
    }

    /// From bit-string contents.
    pub fn from_bit_string(bytes: &[u8]) -> (r: ReasonCode)
        ensures
            r == reason_code_from(bytes@),
    {
        reveal(reason_code_from);
        ReasonCode {
            data_change: bit_at(bytes, 1),
            quality_change: bit_at(bytes, 2),
            data_update: bit_at(bytes, 3),
            integrity: bit_at(bytes, 4),
            general_interrogation: bit_at(bytes, 5),
            application_trigger: bit_at(bytes, 6),
        }
    }
}

impl TrgOps {
    /// Data change, quality change and general interrogation.
    pub fn events() -> (r: TrgOps)
        ensures
            r == (TrgOps {
                data_change: true,
                quality_change: true,
                data_update: false,
                integrity: false,
                general_interrogation: true,
            }),
    {
        TrgOps::none().with_data_change(true).with_quality_change(
            true,
        ).with_general_interrogation(true)
    }

    /// Whether nothing triggers a report.
    pub fn is_empty(self) -> (r: bool)
        ensures
            r == !(self.data_change || self.quality_change || self.data_update || self.integrity
                || self.general_interrogation),
    {
        !(self.data_change || self.quality_change || self.data_update || self.integrity
            || self.general_interrogation)
    }
}

/// How a controllable object is operated.
#[derive(Clone, Copy, Debug, PartialEq, Eq, Structural)]
pub enum ControlModel {
    /// It is not controllable.
    StatusOnly,
    /// Operate without a select, normal security.
    DirectNormal,
    /// Select before operate, normal security.
    SboNormal,
    /// Operate without a select, enhanced security.
    DirectEnhanced,
    /// Select before operate, enhanced security.
    SboEnhanced,
}

/// The wire value of a control model.
pub open spec fn control_model_code(m: ControlModel) -> i64 {
    match m {
        ControlModel::StatusOnly => 0,
        ControlModel::DirectNormal => 1,
        ControlModel::SboNormal => 2,
        ControlModel::DirectEnhanced => 3,
        ControlModel::SboEnhanced => 4,
    }
}

impl ControlModel {
    /// From the wire value.
    pub fn from_code(code: i64) -> (r: Option<ControlModel>)
        ensures
            match r {
                Some(m) => control_model_code(m) == code,
                None => code < 0 || code > 4,
            },
    {
        match code {
            0 => Some(ControlModel::StatusOnly),
            1 => Some(ControlModel::DirectNormal),
            2 => Some(ControlModel::SboNormal),
            3 => Some(ControlModel::DirectEnhanced),
            4 => Some(ControlModel::SboEnhanced),
            _ => None,
        }
    }

    /// The wire value.
    pub fn to_code(self) -> (r: i64)
        ensures
            r == control_model_code(self),
    {
        match self {
            ControlModel::StatusOnly => 0,
            ControlModel::DirectNormal => 1,
            ControlModel::SboNormal => 2,
            ControlModel::DirectEnhanced => 3,
            ControlModel::SboEnhanced => 4,
        }
    }

    /// Whether an operate has to follow a select.
    pub fn needs_select(self) -> (r: bool)
        ensures
            r == (self == ControlModel::SboNormal || self == ControlModel::SboEnhanced),
    {
        matches!(self, ControlModel::SboNormal | ControlModel::SboEnhanced)
    }

    /// Whether the select carries the value to be operated.
    pub fn select_carries_value(self) -> (r: bool)
        ensures
            r == (self == ControlModel::SboEnhanced),
    {
        matches!(self, ControlModel::SboEnhanced)
    }

    /// Whether a termination follows the operate.
    pub fn enhanced_security(self) -> (r: bool)
        ensures
            r == (self == ControlModel::DirectEnhanced || self == ControlModel::SboEnhanced),
    {
        matches!(self, ControlModel::DirectEnhanced | ControlModel::SboEnhanced)
    }
}

} // verus!
