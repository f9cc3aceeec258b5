//! The GOOSE publisher.

use vstd::prelude::*;
use vstd::string::*;
use vstd::utf8::*;
use crate::ber::laws;
use crate::ber::{
    app_cons, bool_octets, ctx, ctx_cons, octets_of, opt_str, opt_view, pow256, same_octets,
    sint_octets, tlv, utc_octets, Encoder, Tag,
};
use crate::common::queue::bump;
use crate::common::{later, sat_add, Error, Instant, UtcTime};
use crate::proto::data::{
    models, value_bytes, value_fault, values_bytes, values_fault, values_fault_from, values_from,
    Value, ValueModel,
};
use crate::proto::ethernet::{
    frame_bytes, frame_fault, header_len, FrameHeader, FrameHeaderModel, RESERVED1_SIMULATION,
};
use crate::proto::goose::apdu::{
    count32, encode_into, goose_bytes, goose_contents, goose_fault, to_count32, GooseHeader,
    GooseHeaderModel,
};
use crate::proto::osi::cotp::pow2;

verus! {

/// The retransmission curve.
///
/// After a state change the frame goes out at once, then after `min_time_ms` twice, then at
/// doubling intervals until `max_time_ms`, and at that interval for as long as the state holds.
#[derive(Clone, Copy, Debug, PartialEq, Eq, Structural)]
pub struct Retransmission {
    /// The first interval, in milliseconds.
    pub min_time_ms: u32,
    /// The interval of the steady state, in milliseconds.
    pub max_time_ms: u32,
    /// `timeAllowedtoLive` is this many times the next interval.
    pub tal_factor: u32,
}

/// The larger of two numbers.
pub open spec fn larger(a: u32, b: u32) -> u32 {
    if a >= b {
        a
    } else {
        b
    }
}

/// The interval after the `n`-th transmission of a state.
pub open spec fn interval_of(r: Retransmission, n: u32) -> u32 {
    let base = larger(r.min_time_ms, 1);
    let most = larger(r.max_time_ms, base);
    if n <= 1 {
        base
    } else {
        let v = base * pow2((n - 1) as nat);
        if v >= most {
            most
        } else {
            v as u32
        }
    }
}

/// What the `n`-th transmission of a state allows to live.
pub open spec fn tal_of(r: Retransmission, n: u32) -> u32 {
    let v = interval_of(r, n) * larger(r.tal_factor, 1);
    if v > u32::MAX {
        u32::MAX
    } else {
        v as u32
    }
}

/// Two to a power, as long as it stays within 33 bits.
fn power(e: u32) -> (r: u64)
    requires
        e <= 32,
    ensures
        r == pow2(e as nat),
        r <= 0x1_0000_0000,
{
    let mut r: u64 = 1;
    let mut i: u32 = 0;
    proof {
        lemma_pow2();
    }
    while i < e
        invariant
            i <= e <= 32,
            r == pow2(i as nat),
            r <= pow2(32),
            pow2(32) == 0x1_0000_0000,
        decreases e - i,
    {
        proof {
            lemma_pow2_grows((i + 1) as nat, 32);
        }
        r = 2 * r;
        i += 1;
    }
    r
}

proof fn lemma_pow2()
    ensures
        pow2(32) == 0x1_0000_0000,
{
    reveal_with_fuel(pow2, 33);
}

proof fn lemma_pow2_grows(a: nat, b: nat)
    requires
        a <= b,
    ensures
        pow2(a) <= pow2(b),
    decreases b - a,
{
    if a < b {
        lemma_pow2_grows(a, (b - 1) as nat);
    }
}

impl Default for Retransmission {
    /// 4 ms to 1 s, with factor 2.
    fn default() -> (r: Retransmission)
        ensures
            r == (Retransmission { min_time_ms: 4, max_time_ms: 1000, tal_factor: 2 }),
    {
        Retransmission { min_time_ms: 4, max_time_ms: 1000, tal_factor: 2 }
    }
}

impl Retransmission {
    /// The interval after the `n`-th transmission of a state. The frame that carried the state
    /// change itself is transmission 0.
    pub fn interval_after(&self, n: u32) -> (r: u32)
        ensures
            r == interval_of(*self, n),
    {
        let base: u32 = if self.min_time_ms == 0 {
            1
        } else {
            self.min_time_ms
        };
        let most: u32 = if self.max_time_ms < base {
            base
        } else {
            self.max_time_ms
        };
        if n <= 1 {
            return base;
        }
        if n > 33 {
            proof {
                lemma_pow2();
                lemma_pow2_grows(32, (n - 1) as nat);
                let p = pow2((n - 1) as nat);
                assert(base * p >= 0x1_0000_0000) by (nonlinear_arith)
                    requires
                        base >= 1,
                        p >= 0x1_0000_0000,
                ;
            }
            return most;
        }
        let f = power(n - 1);
        assert(base * f <= 0xFFFF_FFFF * 0x1_0000_0000) by (nonlinear_arith)
            requires
                base <= 0xFFFF_FFFF,
                f <= 0x1_0000_0000,
        ;
        assert(base * f >= 0) by (nonlinear_arith)
            requires
                base >= 0,
                f >= 0,
        ;
        let v: u64 = base as u64 * f;
        if v >= most as u64 {
            most
        } else {
            v as u32
        }
    }

    /// `timeAllowedtoLive` of the `n`-th transmission.
    pub fn tal_after(&self, n: u32) -> (r: u32)
        ensures
            r == tal_of(*self, n),
    {
        let factor: u32 = if self.tal_factor == 0 {
            1
        } else {
            self.tal_factor
        };
        let next: u32 = self.interval_after(n);
        assert(0 <= next * factor <= 0xFFFF_FFFF * 0xFFFF_FFFF) by (nonlinear_arith)
            requires
                0 <= next <= 0xFFFF_FFFF,
                0 <= factor <= 0xFFFF_FFFF,
        ;
        let v: u64 = next as u64 * factor as u64;
        if v > 0xFFFF_FFFF {
            0xFFFF_FFFF
        } else {
            v as u32
        }
    }
}

/// What a publisher is configured with.
#[derive(Clone, Debug, PartialEq)]
pub struct PublisherConfig {
    /// The link-layer header. The publisher sets the simulation bit of its Reserved1.
    pub header: FrameHeader,
    /// `gocbRef`.
    pub gocb_ref: String,
    /// `datSet`.
    pub dat_set: String,
    /// `goID`.
    pub go_id: Option<String>,
    /// `confRev`.
    pub conf_rev: u32,
    /// The retransmission curve.
    pub retransmission: Retransmission,
    /// Publish with the simulation flag set.
    pub simulation: bool,
    /// `ndsCom`: this publisher needs commissioning and its data is not usable.
    pub nds_com: bool,
}

/// What a [`PublisherConfig`] stands for.
pub struct PublisherConfigModel {
    pub header: FrameHeaderModel,
    pub gocb_ref: Seq<char>,
    pub dat_set: Seq<char>,
    pub go_id: Option<Seq<char>>,
    pub conf_rev: u32,
    pub retransmission: Retransmission,
    pub simulation: bool,
    pub nds_com: bool,
}

impl View for PublisherConfig {
    type V = PublisherConfigModel;

    open spec fn view(&self) -> PublisherConfigModel {
        PublisherConfigModel {
            header: self.header@,
            gocb_ref: self.gocb_ref@,
            dat_set: self.dat_set@,
            go_id: opt_view(self.go_id),
            conf_rev: self.conf_rev,
            retransmission: self.retransmission,
            simulation: self.simulation,
            nds_com: self.nds_com,
        }
    }
}

impl PublisherConfig {
    /// A configuration for one control block, with the defaults: no `goID`, `confRev` 1, the
    /// default curve, not simulated, commissioned.
    pub fn new(header: FrameHeader, gocb_ref: String, dat_set: String) -> (r: PublisherConfig)
        ensures
            r@ == (PublisherConfigModel {
                header: header@,
                gocb_ref: gocb_ref@,
                dat_set: dat_set@,
                go_id: None,
                conf_rev: 1,
                retransmission: Retransmission {
                    min_time_ms: 4,
                    max_time_ms: 1000,
                    tal_factor: 2,
                },
                simulation: false,
                nds_com: false,
            }),
    {
        PublisherConfig {
            header,
            gocb_ref,
            dat_set,
            go_id: None,
            conf_rev: 1,
            retransmission: Default::default(),
            simulation: false,
            nds_com: false,
        }
    }

    /// Set `goID`.
    pub fn with_go_id(self, go_id: String) -> (r: PublisherConfig)
        ensures
            r@ == (PublisherConfigModel { go_id: Some(go_id@), ..self@ }),
    {
        PublisherConfig { go_id: Some(go_id), ..self }
    }

    /// Set `confRev`.
    pub fn with_conf_rev(self, conf_rev: u32) -> (r: PublisherConfig)
        ensures
            r@ == (PublisherConfigModel { conf_rev, ..self@ }),
    {
        PublisherConfig { conf_rev, ..self }
    }

    /// Set the retransmission curve.
    pub fn with_retransmission(self, retransmission: Retransmission) -> (r: PublisherConfig)
        ensures
            r@ == (PublisherConfigModel { retransmission, ..self@ }),
    {
        PublisherConfig { retransmission, ..self }
    }

    /// Publish with the simulation flag set.
    pub fn with_simulation(self, simulation: bool) -> (r: PublisherConfig)
        ensures
            r@ == (PublisherConfigModel { simulation, ..self@ }),
    {
        PublisherConfig { simulation, ..self }
    }

    /// Publish with `ndsCom`.
    pub fn with_nds_com(self, nds_com: bool) -> (r: PublisherConfig)
        ensures
            r@ == (PublisherConfigModel { nds_com, ..self@ }),
    {
        PublisherConfig { nds_com, ..self }
    }
}

/// The GOOSE publisher.
///
/// Call [`Publisher::publish`] when the data changes and [`Publisher::on_timeout`] when
/// [`Publisher::next_timeout`] comes due, and send what [`Publisher::poll_transmit`] gives.
///
/// Values, APDU and frame are encoded into buffers that the publisher keeps and only clears.
#[derive(Debug)]
pub struct Publisher {
    cfg: PublisherConfig,
    /// The current `stNum`.
    pub st_num: u32,
    sq_num: u32,
    built_sq_num: u32,
    t: UtcTime,
    simulation: bool,
    sent_in_state: u32,
    /// The encoded members.
    body: Encoder,
    members: u32,
    /// Where new members are encoded before they are compared with those being sent.
    scratch: Encoder,
    /// Where the APDU of a frame is encoded.
    apdu: Encoder,
    /// The frame that was built last.
    frame: Vec<u8>,
    pending: bool,
    next_send: Option<Instant>,
    dropped: u64,
}

/// What a [`Publisher`] stands for.
pub struct PublisherModel {
    /// What it was configured with.
    pub cfg: PublisherConfigModel,
    /// `stNum` of the current state.
    pub st_num: u32,
    /// `sqNum` of the next frame.
    pub sq_num: u32,
    /// `sqNum` of the frame that was built last.
    pub built_sq_num: u32,
    /// The time of the current state.
    pub t: UtcTime,
    /// Whether frames carry the simulation flag.
    pub simulation: bool,
    /// Transmissions of the current state so far.
    pub sent_in_state: u32,
    /// The encoded members.
    pub body: Seq<u8>,
    /// How many members there are.
    pub members: u32,
    /// The frame that was built last.
    pub frame: Seq<u8>,
    /// Whether it waits to be sent.
    pub pending: bool,
    /// When the next frame is due.
    pub next_send: Option<Instant>,
    /// Frames that were replaced before they were sent.
    pub dropped: u64,
}

impl View for Publisher {
    type V = PublisherModel;

    closed spec fn view(&self) -> PublisherModel {
        PublisherModel {
            cfg: self.cfg@,
            st_num: self.st_num,
            sq_num: self.sq_num,
            built_sq_num: self.built_sq_num,
            t: self.t,
            simulation: self.simulation,
            sent_in_state: self.sent_in_state,
            body: self.body@,
            members: self.members,
            frame: self.frame@,
            pending: self.pending,
            next_send: self.next_send,
            dropped: self.dropped,
        }
    }
}

/// The header of the next frame.
pub open spec fn header_of(p: PublisherModel) -> GooseHeaderModel {
    GooseHeaderModel {
        gocb_ref: p.cfg.gocb_ref,
        time_allowed_to_live: tal_of(p.cfg.retransmission, p.sent_in_state),
        dat_set: p.cfg.dat_set,
        go_id: p.cfg.go_id,
        t: p.t,
        st_num: p.st_num,
        sq_num: p.sq_num,
        simulation: p.simulation,
        conf_rev: p.cfg.conf_rev,
        nds_com: p.cfg.nds_com,
        num_dat_set_entries: p.members,
    }
}

/// Reserved1 with its simulation bit set or cleared.
pub open spec fn marked(reserved1: u16, simulation: bool) -> u16 {
    (reserved1 % 0x8000 + (if simulation {
        0x8000int
    } else {
        0
    })) as u16
}

/// The link-layer header of the next frame.
pub open spec fn link_of(p: PublisherModel) -> FrameHeaderModel {
    FrameHeaderModel { reserved1: marked(p.cfg.header.reserved1, p.simulation), ..p.cfg.header }
}

/// The APDU of the next frame.
pub open spec fn apdu_of(p: PublisherModel) -> Seq<u8> {
    goose_bytes(header_of(p), p.body)
}

/// Why the next frame cannot be built.
pub open spec fn build_fault(p: PublisherModel) -> Option<Error> {
    match goose_fault(header_of(p)) {
        Some(f) => Some(f),
        None => if apdu_of(p).len() + 8 > 65535 {
            Some(frame_fault())
        } else {
            None
        },
    }
}

/// The number after `n`: it wraps to 1, never to 0.
pub open spec fn next_number(n: u32) -> u32 {
    if n == u32::MAX {
        1
    } else {
        (n + 1) as u32
    }
}

/// A buffer of zeros.
pub open spec fn blank(n: nat) -> Seq<u8> {
    Seq::new(n, |i: int| 0u8)
}

/// The next frame is built and the one after it scheduled. An APDU that does not fit a frame
/// leaves the frame buffer blank, and everything else as it was.
pub open spec fn built(p: PublisherModel, now: Instant) -> PublisherModel {
    if goose_fault(header_of(p)) is Some {
        p
    } else if apdu_of(p).len() + 8 > 65535 {
        PublisherModel {
            frame: blank(sat_add(header_len(link_of(p)) as usize, apdu_of(p).len()) as nat),
            ..p
        }
    } else {
        PublisherModel {
            frame: frame_bytes(link_of(p), apdu_of(p)),
            dropped: if p.pending {
                bump(p.dropped)
            } else {
                p.dropped
            },
            pending: true,
            sent_in_state: if p.sent_in_state == u32::MAX {
                u32::MAX
            } else {
                (p.sent_in_state + 1) as u32
            },
            sq_num: next_number(p.sq_num),
            built_sq_num: p.sq_num,
            next_send: Some(
                later(now, interval_of(p.cfg.retransmission, p.sent_in_state) as nat),
            ),
            ..p
        }
    }
}

/// A new state begins: `stNum` advances, `sqNum` restarts, and so does the curve.
pub open spec fn advanced(p: PublisherModel, t: UtcTime) -> PublisherModel {
    PublisherModel { t, st_num: next_number(p.st_num), sq_num: 0, sent_in_state: 0, ..p }
}

/// The outcome of a step that may fail.
pub open spec fn outcome(fault: Option<Error>) -> Result<(), Error> {
    match fault {
        Some(f) => Err(f),
        None => Ok(()),
    }
}

/// How many values from index `i` on have an encoding before one has none.
pub open spec fn good_from(s: Seq<ValueModel>, i: nat) -> nat
    decreases s.len() - i,
{
    if i < s.len() && value_fault(s[i as int]) is None {
        good_from(s, i + 1)
    } else {
        i
    }
}

/// A publisher with these members.
pub open spec fn holding(p: PublisherModel, values: Seq<ValueModel>) -> PublisherModel {
    PublisherModel { body: values_bytes(values), members: count32(values.len()), ..p }
}

/// A publisher that got values of which one has no encoding: it holds the octets of those
/// before it.
pub open spec fn spoiled(p: PublisherModel, values: Seq<ValueModel>) -> PublisherModel {
    PublisherModel { body: values_bytes(values.take(good_from(values, 0) as int)), ..p }
}

/// Why these values cannot be published: one of them has no encoding, or all of them no frame.
pub open spec fn publish_fault(p: PublisherModel, values: Seq<ValueModel>, t: UtcTime) -> Option<
    Error,
> {
    match values_fault(values) {
        Some(f) => Some(f),
        None => build_fault(advanced(holding(p, values), t)),
    }
}

/// New values are published as of `t`: they begin a new state, even where its first frame cannot
/// be built.
pub open spec fn published(
    p: PublisherModel,
    now: Instant,
    values: Seq<ValueModel>,
    t: UtcTime,
) -> PublisherModel {
    if values_fault(values) is Some {
        spoiled(p, values)
    } else {
        built(advanced(holding(p, values), t), now)
    }
}

/// Whether the counters of a publisher fit each other: `sqNum` is 0 until the first frame of a
/// state is built, and from then on the next one is one above that of the frame built last.
pub open spec fn in_step(p: PublisherModel) -> bool {
    &&& p.sq_num == 0 <==> p.sent_in_state == 0
    &&& p.sq_num != 0 ==> p.sq_num == next_number(p.built_sq_num)
}

/// Whether these members are already being sent.
pub open spec fn unchanged(p: PublisherModel, values: Seq<ValueModel>) -> bool {
    p.members == values.len() && p.body == values_bytes(values)
}

/// New values are published if they differ from those being sent, and whether they were.
pub open spec fn refreshed(
    p: PublisherModel,
    now: Instant,
    values: Seq<ValueModel>,
    t: UtcTime,
) -> (PublisherModel, Result<bool, Error>) {
    match values_fault(values) {
        Some(f) => (p, Err(f)),
        None => if unchanged(p, values) {
            (p, Ok(false))
        } else {
            (
                published(p, now, values, t),
                match publish_fault(p, values, t) {
                    Some(f) => Err(f),
                    None => Ok(true),
                },
            )
        },
    }
}

/// Time passed: a frame is built once it is due.
pub open spec fn ticked(p: PublisherModel, now: Instant) -> (PublisherModel, Result<(), Error>) {
    if p.next_send matches Some(due) && now.nanos >= due.nanos {
        (built(p, now), outcome(build_fault(p)))
    } else {
        (p, Ok(()))
    }
}

/// The frame that waits to be sent is handed out.
pub open spec fn handed_out(p: PublisherModel) -> (PublisherModel, Option<Seq<u8>>) {
    (
        PublisherModel { pending: false, ..p },
        if p.pending {
            Some(p.frame)
        } else {
            None
        },
    )
}

/// Whether a publisher can be made of a configuration.
pub open spec fn config_fault(cfg: PublisherConfigModel) -> Option<Error> {
    if is_ascii_chars(cfg.gocb_ref) && is_ascii_chars(cfg.dat_set) && (cfg.go_id matches Some(id)
        ==> is_ascii_chars(id)) {
        None
    } else {
        Some(Error::Encode("gocbRef, datSet and goID must be ASCII (VisibleString)"))
    }
}

/// A new publisher, whose first frame is due at once.
pub open spec fn fresh(
    cfg: PublisherConfigModel,
    values: Seq<ValueModel>,
    t: UtcTime,
) -> PublisherModel {
    PublisherModel {
        cfg,
        st_num: 1,
        sq_num: 0,
        built_sq_num: 0,
        t,
        simulation: cfg.simulation,
        sent_in_state: 0,
        body: values_bytes(values),
        members: count32(values.len()),
        frame: Seq::empty(),
        pending: false,
        next_send: Some(Instant { nanos: 0 }),
        dropped: 0,
    }
}

proof fn lemma_values_from_add(s: Seq<ValueModel>, n: int, i: nat)
    requires
        i <= n < s.len(),
    ensures
        values_from(s.take(n + 1), i) == values_from(s.take(n), i) + value_bytes(s[n]),
    decreases n - i,
{
    let a = s.take(n);
    let b = s.take(n + 1);
    if i == n {
        assert(values_from(b, i + 1) =~= Seq::<u8>::empty());
        assert(values_from(b, i) =~= value_bytes(s[n]));
        assert(values_from(a, i) =~= Seq::<u8>::empty());
        assert(values_from(a, i) + value_bytes(s[n]) =~= value_bytes(s[n]));
    } else {
        lemma_values_from_add(s, n, i + 1);
        assert(a[i as int] == b[i as int]);
        assert(values_from(b, i) =~= values_from(a, i) + value_bytes(s[n]));
    }
}

proof fn lemma_faultless(s: Seq<ValueModel>, i: nat)
    requires
        i <= s.len(),
        forall|j: int| 0 <= j < i ==> value_fault(#[trigger] s[j]) is None,
    ensures
        values_fault(s) == values_fault_from(s, i),
        good_from(s, 0) == good_from(s, i),
    decreases i,
{
    if i > 0 {
        lemma_faultless(s, (i - 1) as nat);
        assert(value_fault(s[i - 1]) is None);
    }
}

/// Encode values into a buffer, stopping at the first that has no encoding.
fn encode_values(values: &[Value], out: &mut Encoder) -> (r: Result<(), Error>)
    requires
        old(out)@.len() == 0,
    ensures
        r == outcome(values_fault(models(values@))),
        final(out)@ == values_bytes(
            models(values@).take(good_from(models(values@), 0) as int),
        ),
        r is Ok ==> final(out)@ == values_bytes(models(values@)),
{
    let ghost s = models(values@);
    let mut i: usize = 0;
    assert(values_bytes(s.take(0)) =~= Seq::<u8>::empty());
    assert(out@ =~= Seq::<u8>::empty());
    while i < values.len()
        invariant
            i <= values.len(),
            s == models(values@),
            out@ == values_bytes(s.take(i as int)),
            forall|j: int| 0 <= j < i ==> value_fault(#[trigger] s[j]) is None,
        decreases values.len() - i,
    {
        assert(s[i as int] == values@[i as int]@);
        let r = values[i].encode(out);
        proof {
            lemma_faultless(s, i as nat);
            lemma_values_from_add(s, i as int, 0);
        }
        r?;
        i += 1;
    }
    proof {
        lemma_faultless(s, i as nat);
        assert(s.take(i as int) =~= s);
    }
    Ok(())
}

/// How many octets the text of a field takes, none where there is no field.
pub open spec fn text_len(s: Option<Seq<char>>) -> nat {
    match s {
        Some(s) => encode_utf8(s).len(),
        None => 0,
    }
}

/// What the APDU of any frame takes at most, for a body of `n` octets: two wrappers, eleven field
/// headers, five counters, two flags and the time, the texts and the body.
pub open spec fn most_octets(cfg: PublisherConfigModel, n: nat) -> nat {
    2 * 6 + 3 * 11 + 5 * 5 + (8 + 2) + encode_utf8(cfg.gocb_ref).len() + encode_utf8(
        cfg.dat_set,
    ).len() + text_len(cfg.go_id) + n
}

/// An upper bound on the encoded APDU: every field at its widest encoding.
fn apdu_bound(cfg: &PublisherConfig, body_len: usize) -> (r: usize)
    ensures
        r == sat_add(0, most_octets(cfg@, body_len as nat)),
{
    let go_id_len: usize = match &cfg.go_id {
        Some(id) => id.as_str().as_bytes().len(),
        None => 0,
    };
    let texts: usize = cfg.gocb_ref.as_str().as_bytes().len().saturating_add(
        cfg.dat_set.as_str().as_bytes().len(),
    ).saturating_add(go_id_len);
    texts.saturating_add(body_len).saturating_add(2 * 6 + 3 * 11 + 5 * 5 + (8 + 2))
}

/// No frame of a publisher has a longer APDU than the bound, whatever its counters have grown to.
/// Three texts of 16 MiB or more each are the exception: their length fields are wider.
pub proof fn lemma_apdu_bound(p: PublisherModel)
    requires
        goose_fault(header_of(p)) is None,
        apdu_of(p).len() <= u32::MAX,
        p.cfg.gocb_ref.len() < 0x100_0000 || p.cfg.dat_set.len() < 0x100_0000 || (
        p.cfg.go_id matches Some(id) ==> id.len() < 0x100_0000),
    ensures
        apdu_of(p).len() <= most_octets(p.cfg, p.body.len()),
{
    broadcast use laws::lemma_tlv_len;

    let h = header_of(p);
    laws::lemma_pow256();
    assert(pow256(3) == 0x100_0000) by {
        reveal_with_fuel(pow256, 4);
    }
    is_ascii_chars_encode_utf8(h.gocb_ref);
    is_ascii_chars_encode_utf8(h.dat_set);
    lemma_text_field(ctx(0), h.gocb_ref);
    lemma_text_field(ctx(2), h.dat_set);
    if let Some(id) = h.go_id {
        is_ascii_chars_encode_utf8(id);
        lemma_text_field(ctx(3), id);
    }
    lemma_counter_field(ctx(1), h.time_allowed_to_live);
    lemma_counter_field(ctx(5), h.st_num);
    lemma_counter_field(ctx(6), h.sq_num);
    lemma_counter_field(ctx(8), h.conf_rev);
    lemma_counter_field(ctx(10), h.num_dat_set_entries);
    laws::lemma_be_fixed(h.t.raw as nat, 8);
    laws::lemma_tlv_at_most(ctx(4), utc_octets(h.t), 1);
    laws::lemma_tlv_at_most(ctx(7), bool_octets(h.simulation), 1);
    laws::lemma_tlv_at_most(ctx(9), bool_octets(h.nds_com), 1);
    laws::lemma_tlv_at_most(ctx_cons(11), p.body, 4);
    laws::lemma_tlv_at_most(app_cons(1), goose_contents(h, p.body), 4);
}

proof fn lemma_counter_field(tag: Tag, v: u32)
    requires
        tag.number < 31,
    ensures
        tlv(tag, sint_octets(v as int)).len() <= 7,
{
    laws::lemma_counter_len(v);
    laws::lemma_pow256();
    laws::lemma_tlv_at_most(tag, sint_octets(v as int), 1);
}

proof fn lemma_text_field(tag: Tag, s: Seq<char>)
    requires
        tag.number < 31,
        tlv(tag, octets_of(s)).len() <= u32::MAX,
    ensures
        tlv(tag, octets_of(s)).len() <= s.len() + 6,
        s.len() < 0x100_0000 ==> tlv(tag, octets_of(s)).len() <= s.len() + 5,
{
    broadcast use laws::lemma_tlv_len;

    laws::lemma_pow256();
    assert(pow256(3) == 0x100_0000) by {
        reveal_with_fuel(pow256, 4);
    }
    laws::lemma_tlv_at_most(tag, octets_of(s), 4);
    if s.len() < 0x100_0000 {
        laws::lemma_tlv_at_most(tag, octets_of(s), 3);
    }
}

impl Publisher {
    /// A publisher holding `initial_values` as of `t`, ready to send its first frame at once.
    pub fn new(cfg: PublisherConfig, initial_values: &[Value], t: UtcTime) -> (r: Result<
        Publisher,
        Error,
    >)
        ensures
            match config_fault(cfg@) {
                Some(f) => r == Err::<Publisher, Error>(f),
                None => match values_fault(models(initial_values@)) {
                    Some(f) => r == Err::<Publisher, Error>(f),
                    None => r matches Ok(p) && p@ == fresh(cfg@, models(initial_values@), t)
                        && in_step(p@),
                },
            },
    {
        let go_id_ok = match &cfg.go_id {
            Some(id) => id.as_str().is_ascii(),
            None => true,
        };
        if !cfg.gocb_ref.as_str().is_ascii() || !cfg.dat_set.as_str().is_ascii() || !go_id_ok {
            return Err(
                Error::Encode("gocbRef, datSet and goID must be ASCII (VisibleString)"),
            );
        }
        let mut body = Encoder::with_capacity(64);
        encode_values(initial_values, &mut body)?;
        let simulation = cfg.simulation;
        let bound: usize = apdu_bound(&cfg, body.len());
        let room: usize = if body.len() > 64 {
            body.len()
        } else {
            64
        };
        let apdu = Encoder::with_capacity(bound);
        let frame: Vec<u8> = Vec::with_capacity(cfg.header.len().saturating_add(bound));
        assert(frame@ =~= Seq::<u8>::empty());
        Ok(
            Publisher {
                cfg,
                st_num: 1,
                sq_num: 0,
                built_sq_num: 0,
                t,
                simulation,
                sent_in_state: 0,
                body,
                members: to_count32(initial_values.len()),
                scratch: Encoder::with_capacity(room),
                apdu,
                frame,
                pending: false,
                next_send: Some(Instant::zero()),
                dropped: 0,
            },
        )
    }

    /// Current `stNum`.
    pub fn st_num(&self) -> (r: u32)
        ensures
            r == self@.st_num,
    {
        self.st_num
    }

    /// `sqNum` of the frame most recently built.
    pub fn sq_num(&self) -> (r: u32)
        ensures
            r == self@.built_sq_num,
    {
        self.built_sq_num
    }

    /// The configuration.
    pub fn config(&self) -> (r: &PublisherConfig)
        ensures
            r@ == self@.cfg,
    {
        &self.cfg
    }

    /// Frames replaced because the caller did not collect them before the next one was due.
    pub fn dropped(&self) -> (r: u64)
        ensures
            r == self@.dropped,
    {
        self.dropped
    }

    fn build(&mut self, now: Instant) -> (r: Result<(), Error>)
        ensures
            r == outcome(build_fault(old(self)@)),
            final(self)@ == built(old(self)@, now),
    {
        let interval = self.cfg.retransmission.interval_after(self.sent_in_state);
        let header = GooseHeader {
            gocb_ref: self.cfg.gocb_ref.as_str(),
            time_allowed_to_live: self.cfg.retransmission.tal_after(self.sent_in_state),
            dat_set: self.cfg.dat_set.as_str(),
            go_id: opt_str(&self.cfg.go_id),
            t: self.t,
            st_num: self.st_num,
            sq_num: self.sq_num,
            simulation: self.simulation,
            conf_rev: self.cfg.conf_rev,
            nds_com: self.cfg.nds_com,
            num_dat_set_entries: self.members,
        };
        let bound: usize = apdu_bound(&self.cfg, self.body.len());
        self.apdu.clear();
        self.apdu.reserve(bound);
        encode_into(&header, self.body.as_bytes(), &mut self.apdu)?;
        assert(self.apdu@ =~= apdu_of(self@));
        let mut link = self.cfg.header;
        link.reserved1 =
        if self.simulation {
            link.reserved1 % RESERVED1_SIMULATION + RESERVED1_SIMULATION
        } else {
            link.reserved1 % RESERVED1_SIMULATION
        };
        self.frame.clear();
        self.frame.reserve(link.len().saturating_add(bound));
        self.frame.resize(link.len().saturating_add(self.apdu.len()), 0);
        assert(self.frame@ =~= blank(self.frame@.len()));
        link.write(self.apdu.as_bytes(), self.frame.as_mut_slice())?;
        assert(self.frame@ =~= frame_bytes(link@, self.apdu@));
        if self.pending {
            self.dropped = self.dropped.saturating_add(1);
        }
        self.pending = true;
        self.sent_in_state = self.sent_in_state.saturating_add(1);
        self.built_sq_num = self.sq_num;
        self.sq_num =
        if self.sq_num == u32::MAX {
            1
        } else {
            self.sq_num + 1
        };
        self.next_send = Some(now.plus_millis(interval as u64));
        Ok(())
    }

    fn advance_state(&mut self, now: Instant, t: UtcTime) -> (r: Result<(), Error>)
        ensures
            r == outcome(build_fault(advanced(old(self)@, t))),
            final(self)@ == built(advanced(old(self)@, t), now),
    {
        self.t = t;
        self.st_num =
        if self.st_num == u32::MAX {
            1
        } else {
            self.st_num + 1
        };
        self.sq_num = 0;
        self.sent_in_state = 0;
        self.build(now)
    }

    /// Publish new values as of `t`: `stNum` advances, `sqNum` restarts at 0 and the
    /// retransmission curve begins again.
    ///
    /// A value that has no encoding leaves the octets of those before it as the members, beside
    /// the old count. Values that have one begin a new state even where its frame cannot be built.
    pub fn publish(&mut self, now: Instant, values: &[Value], t: UtcTime) -> (r: Result<(), Error>)
        ensures
            r == outcome(publish_fault(old(self)@, models(values@), t)),
            final(self)@ == published(old(self)@, now, models(values@), t),
            in_step(old(self)@) ==> in_step(final(self)@),
    {
        self.body.clear();
        encode_values(values, &mut self.body)?;
        self.members = to_count32(values.len());
        self.advance_state(now, t)
    }

    /// Publish `values` only if they differ from the ones being sent, and say whether they did.
    ///
    /// A value that has no encoding leaves the publisher as it was.
    pub fn publish_if_changed(&mut self, now: Instant, values: &[Value], t: UtcTime) -> (r: Result<
        bool,
        Error,
    >)
        ensures
            (final(self)@, r) == refreshed(old(self)@, now, models(values@), t),
            match values_fault(models(values@)) {
                Some(f) => r == Err::<bool, Error>(f) && final(self)@ == old(self)@,
                None => if unchanged(old(self)@, models(values@)) {
                    r == Ok::<bool, Error>(false) && final(self)@ == old(self)@
                } else {
                    &&& final(self)@ == published(old(self)@, now, models(values@), t)
                    &&& r == match publish_fault(old(self)@, models(values@), t) {
                        Some(f) => Err::<bool, Error>(f),
                        None => Ok(true),
                    }
                },
            },
            in_step(old(self)@) ==> in_step(final(self)@),
    {
        self.scratch.clear();
        encode_values(values, &mut self.scratch)?;
        if self.members as usize == values.len() && same_octets(
            self.scratch.as_bytes(),
            self.body.as_bytes(),
        ) {
            return Ok(false);
        }
        core::mem::swap(&mut self.body, &mut self.scratch);
        self.members = to_count32(values.len());
        self.advance_state(now, t)?;
        Ok(true)
    }

    /// The retransmission timer came due.
    ///
    /// An APDU that does not fit a frame leaves the frame buffer blank.
    pub fn on_timeout(&mut self, now: Instant) -> (r: Result<(), Error>)
        ensures
            (final(self)@, r) == ticked(old(self)@, now),
            if old(self)@.next_send matches Some(due) && now.nanos >= due.nanos {
                r == outcome(build_fault(old(self)@)) && final(self)@ == built(old(self)@, now)
            } else {
                r is Ok && final(self)@ == old(self)@
            },
            in_step(old(self)@) ==> in_step(final(self)@),
    {
        match self.next_send {
            Some(due) => if now.nanos >= due.nanos {
                self.build(now)
            } else {
                Ok(())
            },
            None => Ok(()),
        }
    }

    /// Turn the simulation flag on or off. It takes effect with the next frame.
    pub fn set_simulation(&mut self, on: bool)
        ensures
            final(self)@ == (PublisherModel { simulation: on, ..old(self)@ }),
            in_step(old(self)@) ==> in_step(final(self)@),
    {
        self.simulation = on;
    }

    /// When [`Publisher::on_timeout`] must next be called.
    pub fn next_timeout(&self) -> (r: Option<Instant>)
        ensures
            r == self@.next_send,
    {
        self.next_send
    }

    /// The frame to send now, once. Valid until the next call that changes the publisher.
    pub fn poll_transmit(&mut self) -> (r: Option<&[u8]>)
        ensures
            (final(self)@, opt_view(r)) == handed_out(old(self)@),
            match r {
                Some(f) => old(self)@.pending && f@ == old(self)@.frame,
                None => !old(self)@.pending,
            },
            final(self)@ == (PublisherModel { pending: false, ..old(self)@ }),
            in_step(old(self)@) ==> in_step(final(self)@),
    {
        if self.pending {
            self.pending = false;
            Some(self.frame.as_slice())
        } else {
            None
        }
    }
}

} // verus!
