//! When a publisher sends, and what its frames say, over successive frames.

use vstd::prelude::*;
use vstd::utf8::*;
use crate::common::{Error, Instant, UtcTime};
use crate::proto::data::{value_fault, values_bytes, values_fault, ValueModel};
use crate::proto::ethernet::{frame_of, header_fits, parsed, FrameModel};
use crate::proto::goose::apdu::{goose_fault, goose_of};
use crate::proto::goose::laws::{lemma_curve, lemma_frame_holds};
use crate::proto::goose::publisher::{
    advanced, apdu_of, build_fault, built, config_fault, fresh, good_from, handed_out, header_of,
    holding, interval_of, larger, link_of, publish_fault, published, refreshed, tal_of, ticked,
    PublisherConfigModel, PublisherModel,
};
use crate::proto::mms::writable::lemma_values_writable;
use crate::proto::osi::cotp::pow2;

verus! {

/// The shortest interval that a configuration asks for, in nanoseconds. It is never none.
pub open spec fn shortest(cfg: PublisherConfigModel) -> int {
    if cfg.retransmission.min_time_ms >= 1 {
        cfg.retransmission.min_time_ms * 1_000_000
    } else {
        1_000_000
    }
}

/// The interval of the steady state, in nanoseconds. It is never below the shortest one.
pub open spec fn longest(cfg: PublisherConfigModel) -> int {
    if cfg.retransmission.max_time_ms * 1_000_000 >= shortest(cfg) {
        cfg.retransmission.max_time_ms * 1_000_000
    } else {
        shortest(cfg)
    }
}

/// Nanoseconds from when a frame was built until the next one is due.
pub open spec fn gap(p: PublisherModel, now: Instant) -> int {
    p.next_send->0.nanos - now.nanos
}

/// Whether the clock is far enough from its end for any interval of a configuration.
pub open spec fn in_time(cfg: PublisherConfigModel, now: Instant) -> bool {
    now.nanos + longest(cfg) <= u64::MAX
}

/// After each of the first two frames of a state, the next one is due after the shortest interval.
/// After every later one it is due after twice the interval before, until that reaches the longest
/// one. So the gaps of a state are T1, T1, 2 T1, 4 T1 and so on, and then T0 for as long as it holds.
pub proof fn lemma_backs_off(p: PublisherModel, now: Instant, next: Instant)
    requires
        build_fault(p) is None,
        in_time(p.cfg, now),
        in_time(p.cfg, next),
        p.sent_in_state < u32::MAX - 1,
        build_fault(built(p, now)) is None,
    ensures
        ({
            let q = built(p, now);
            let r = built(q, next);
            &&& q.next_send is Some && r.next_send is Some
            &&& p.sent_in_state <= 1 ==> gap(q, now) == shortest(p.cfg)
            &&& p.sent_in_state == 0 ==> gap(r, next) == shortest(p.cfg)
            &&& p.sent_in_state >= 1 ==> gap(r, next) == if 2 * gap(q, now) >= longest(p.cfg) {
                longest(p.cfg)
            } else {
                2 * gap(q, now)
            }
            &&& q.sent_in_state == p.sent_in_state + 1
        }),
{
    let r = p.cfg.retransmission;
    let n = p.sent_in_state;
    lemma_curve(r, 1);
    if n >= 1 {
        lemma_curve(r, n);
    }
    lemma_curve(r, (n + 1) as u32);
}

/// A publisher after it built a frame at each of these instants.
pub open spec fn over(p: PublisherModel, times: Seq<Instant>) -> PublisherModel
    decreases times.len(),
{
    if times.len() == 0 {
        p
    } else {
        built(over(p, times.drop_last()), times.last())
    }
}

/// Whether every one of these frames can be built.
pub open spec fn all_built(p: PublisherModel, times: Seq<Instant>) -> bool {
    forall|k: int|
        0 <= k < times.len() ==> build_fault(#[trigger] over(p, times.take(k))) is None && in_time(
            p.cfg,
            times[k],
        )
}

/// The whole timetable of a state: after its `n`-th frame, counted from one, the next is due
/// after T1 for the first two, and after `2^(n-2)` T1 from then on, or T0 where that is more.
/// Nothing of the configuration or of the state changes on the way.
pub proof fn lemma_timetable(p: PublisherModel, times: Seq<Instant>)
    requires
        p.sent_in_state == 0,
        1 <= times.len() < u32::MAX,
        all_built(p, times),
    ensures
        ({
            let q = over(p, times);
            let most = longest(p.cfg);
            let grown = shortest(p.cfg) * pow2((times.len() - 2) as nat);
            &&& q.next_send is Some
            &&& q.sent_in_state == times.len()
            &&& q.cfg == p.cfg && q.st_num == p.st_num && q.t == p.t && q.body == p.body
            &&& gap(q, times.last()) == if times.len() <= 2 {
                shortest(p.cfg)
            } else if grown >= most {
                most
            } else {
                grown
            }
        }),
    decreases times.len(),
{
    let before = times.drop_last();
    let n = times.len();
    assert(times.take(n - 1) =~= before);
    let q = over(p, before);
    assert(build_fault(over(p, times.take(n - 1))) is None);
    if n > 1 {
        assert forall|k: int| 0 <= k < before.len() implies build_fault(
            #[trigger] over(p, before.take(k)),
        ) is None && in_time(p.cfg, before[k]) by {
            assert(before.take(k) =~= times.take(k));
            assert(build_fault(over(p, times.take(k))) is None);
        }
        lemma_timetable(p, before);
    }
    let r = p.cfg.retransmission;
    lemma_curve(r, 1);
    let i = interval_of(r, (n - 1) as u32);
    assert(q.sent_in_state == n - 1);
    if n > 2 {
        lemma_curve(r, (n - 1) as u32);
        let g = pow2((n - 2) as nat) as int;
        let base = larger(r.min_time_ms, 1) as int;
        assert((base * 1_000_000) * g == (base * g) * 1_000_000) by (nonlinear_arith);
    }
}

/// What a frame allows to live is the time until the next one is due, times the configured factor,
/// as far as the field can express it.
pub proof fn lemma_outlives_gap(p: PublisherModel, now: Instant)
    requires
        build_fault(p) is None,
        header_fits(p.cfg.header),
        in_time(p.cfg, now),
        p.sent_in_state < u32::MAX,
    ensures
        built(p, now).next_send is Some,
        frame_of(built(p, now).frame) matches Ok(f) && (goose_of(f.apdu) matches Ok(m) && {
            let product = gap(built(p, now), now) * (if p.cfg.retransmission.tal_factor >= 1 {
                p.cfg.retransmission.tal_factor as int
            } else {
                1
            });
            m.header.time_allowed_to_live * 1_000_000 == if product > 4_294_967_295_000_000 {
                4_294_967_295_000_000int
            } else {
                product
            }
        }),
{
    lemma_frame_says(p, now);
    lemma_curve(p.cfg.retransmission, 1);
    if p.sent_in_state >= 1 {
        lemma_curve(p.cfg.retransmission, p.sent_in_state);
    }
    let i = interval_of(p.cfg.retransmission, p.sent_in_state) as int;
    let f = larger(p.cfg.retransmission.tal_factor, 1) as int;
    assert((i * 1_000_000) * f == (i * f) * 1_000_000) by (nonlinear_arith);
    assert(i * f >= 0) by (nonlinear_arith)
        requires
            i >= 0,
            f >= 0,
    ;
}

/// Every frame goes to the configured address, and marks a simulated stream in the link header.
pub proof fn lemma_frame_addressed(p: PublisherModel, now: Instant)
    requires
        build_fault(p) is None,
        header_fits(p.cfg.header),
    ensures
        frame_of(built(p, now).frame) matches Ok(f) && {
            &&& f.dst == p.cfg.header.dst
            &&& f.src == p.cfg.header.src
            &&& f.ethertype == p.cfg.header.ethertype
            &&& f.appid == p.cfg.header.appid
            &&& f.vlan == p.cfg.header.vlan
            &&& f.reserved2 == p.cfg.header.reserved2
            &&& (f.reserved1 >= 0x8000) == p.simulation
            &&& f.reserved1 % 0x8000 == p.cfg.header.reserved1 % 0x8000
        },
{
    lemma_frame_holds(p, now);
    let f = frame_of(built(p, now).frame)->Ok_0;
    lemma_link(p, f);
}

proof fn lemma_link(p: PublisherModel, f: FrameModel)
    requires
        f == parsed(link_of(p), apdu_of(p)),
    ensures
        f.dst == p.cfg.header.dst,
        f.src == p.cfg.header.src,
        f.ethertype == p.cfg.header.ethertype,
        f.appid == p.cfg.header.appid,
        f.vlan == p.cfg.header.vlan,
        f.reserved2 == p.cfg.header.reserved2,
        (f.reserved1 >= 0x8000) == p.simulation,
        f.reserved1 % 0x8000 == p.cfg.header.reserved1 % 0x8000,
{
}

/// Every frame says what the publisher holds: the names and numbers it was configured with, the
/// state it is in, and the next sequence number.
pub proof fn lemma_frame_says(p: PublisherModel, now: Instant)
    requires
        build_fault(p) is None,
        header_fits(p.cfg.header),
    ensures
        frame_of(built(p, now).frame) matches Ok(f) && (goose_of(f.apdu) matches Ok(m) && {
            &&& m.header.time_allowed_to_live == tal_of(p.cfg.retransmission, p.sent_in_state)
            &&& m.header.gocb_ref == p.cfg.gocb_ref
            &&& m.header.dat_set == p.cfg.dat_set
            &&& m.header.go_id == p.cfg.go_id
            &&& m.header.conf_rev == p.cfg.conf_rev
            &&& m.header.nds_com == p.cfg.nds_com
            &&& m.header.simulation == p.simulation
            &&& m.header.t == p.t
            &&& m.header.st_num == p.st_num
            &&& m.header.sq_num == p.sq_num
            &&& m.header.num_dat_set_entries == p.members
            &&& m.members.value == p.body
        }),
{
    lemma_frame_holds(p, now);
    let f = frame_of(built(p, now).frame)->Ok_0;
    assert(f.apdu == apdu_of(p));
    let g = goose_of(f.apdu);
    assert(g matches Ok(m) && m.header == header_of(p) && m.members.value == p.body);
}

/// The frames of one state carry ascending sequence numbers, one apart, and 1 follows the last
/// number there is. The state number and the time of the state stay.
pub proof fn lemma_sequence_ascends(p: PublisherModel, now: Instant)
    requires
        build_fault(p) is None,
    ensures
        ({
            let q = built(p, now);
            &&& p.sq_num < 4_294_967_295 ==> q.sq_num == p.sq_num + 1
            &&& p.sq_num == 4_294_967_295 ==> q.sq_num == 1
            &&& q.st_num == p.st_num && q.t == p.t && q.members == p.members && q.body == p.body
            &&& q.cfg == p.cfg && q.simulation == p.simulation
            &&& q.pending && q.built_sq_num == p.sq_num
            &&& p.pending && p.dropped < u64::MAX ==> q.dropped == p.dropped + 1
            &&& !p.pending ==> q.dropped == p.dropped
        }),
{
}

/// What is published begins a state: its frame carries the next state number, which is 1 after the
/// last there is, the sequence number 0 and the given time, and the timetable starts anew.
pub proof fn lemma_state_begins(
    p: PublisherModel,
    now: Instant,
    values: Seq<ValueModel>,
    t: UtcTime,
)
    requires
        publish_fault(p, values, t) is None,
        header_fits(p.cfg.header),
        in_time(p.cfg, now),
        values.len() <= u32::MAX,
    ensures
        ({
            let q = published(p, now, values, t);
            &&& q.st_num == if p.st_num == 4_294_967_295 {
                1
            } else {
                p.st_num + 1
            }
            &&& q.sq_num == 1 && q.built_sq_num == 0 && q.sent_in_state == 1 && q.t == t
            &&& q.members == values.len() && q.body == values_bytes(values)
            &&& q.cfg == p.cfg && q.simulation == p.simulation
            &&& q.next_send is Some && gap(q, now) == shortest(p.cfg)
            &&& frame_of(q.frame) matches Ok(f) && (goose_of(f.apdu) matches Ok(m)
                && m.header.st_num == q.st_num && m.header.sq_num == 0 && m.header.t == t
                && m.header.num_dat_set_entries == values.len() && m.members.value == q.body)
        }),
{
    lemma_frame_says(advanced(holding(p, values), t), now);
}

/// A new publisher is in its first state, has sent nothing of it, and is due at once.
pub proof fn lemma_first_frame(cfg: PublisherConfigModel, values: Seq<ValueModel>, t: UtcTime)
    requires
        values.len() <= u32::MAX,
    ensures
        ({
            let p = fresh(cfg, values, t);
            &&& p.st_num == 1 && p.sq_num == 0 && p.sent_in_state == 0 && p.t == t
            &&& p.built_sq_num == 0
            &&& p.body == values_bytes(values) && p.frame.len() == 0
            &&& p.members == values.len() && p.simulation == cfg.simulation && p.cfg == cfg
            &&& !p.pending && p.dropped == 0
            &&& p.next_send is Some && p.next_send->0.nanos == 0
        }),
{
}

/// Nothing is sent before it is due, and what is due is built: the frame that the timer brings is the
/// one that would be built at that instant.
pub proof fn lemma_on_time(p: PublisherModel, due: Instant, now: Instant)
    requires
        p.next_send == Some(due),
    ensures
        now.nanos < due.nanos ==> ticked(p, now) == (p, Ok::<(), Error>(())),
        now.nanos >= due.nanos ==> ticked(p, now).0 == built(p, now),
        now.nanos >= due.nanos && build_fault(p) is None ==> ticked(p, now).1 is Ok
            && ticked(p, now).0.pending,
        now.nanos >= due.nanos && build_fault(p) is Some ==> ticked(p, now).1 == Err::<(), Error>(
            build_fault(p)->0,
        ),
{
}

/// A frame that was built is handed out once, and then no more until another one is.
pub proof fn lemma_handed_out_once(p: PublisherModel, now: Instant)
    ensures
        build_fault(p) is None ==> handed_out(built(p, now)).1 == Some(built(p, now).frame),
        handed_out(handed_out(p).0).1 is None,
        handed_out(p).0.frame == p.frame,
        handed_out(p).0.next_send == p.next_send,
        handed_out(p).0.sq_num == p.sq_num,
        handed_out(p).0.st_num == p.st_num,
        handed_out(p).0.dropped == p.dropped,
{
}

/// Values that were just published are not published again. Others are, and begin a state.
pub proof fn lemma_only_changes(
    p: PublisherModel,
    now: Instant,
    values: Seq<ValueModel>,
    t: UtcTime,
    other: Seq<ValueModel>,
    later: Instant,
    u: UtcTime,
)
    requires
        publish_fault(p, values, t) is None,
        values.len() <= u32::MAX,
        values_fault(other) is None,
    ensures
        ({
            let q = published(p, now, values, t);
            let same = values_bytes(other) == values_bytes(values) && other.len() == values.len();
            &&& refreshed(q, later, values, u) == (q, Ok::<bool, Error>(false))
            &&& same ==> refreshed(q, later, other, u) == (q, Ok::<bool, Error>(false))
            &&& !same ==> refreshed(q, later, other, u).0 == published(q, later, other, u)
            &&& !same && publish_fault(q, other, u) is None ==> refreshed(q, later, other, u).1
                == Ok::<bool, Error>(true)
        }),
{
}

/// A publisher can be made where every name of its control block is ASCII.
pub proof fn lemma_names_are_ascii(cfg: PublisherConfigModel)
    ensures
        config_fault(cfg) is None <==> is_ascii_chars(cfg.gocb_ref) && is_ascii_chars(cfg.dat_set)
            && (cfg.go_id is Some ==> is_ascii_chars(cfg.go_id->0)),
{
}

/// Values of which one has no encoding are not published: the state, its numbers and the timetable
/// stay, and the members that are held are those before the first that has none.
pub proof fn lemma_unwritable_values(
    p: PublisherModel,
    now: Instant,
    values: Seq<ValueModel>,
    t: UtcTime,
    k: int,
)
    requires
        0 <= k < values.len(),
        value_fault(values[k]) is Some,
        forall|i: int| 0 <= i < k ==> value_fault(#[trigger] values[i]) is None,
    ensures
        publish_fault(p, values, t) is Some,
        published(p, now, values, t) == (PublisherModel { body: values_bytes(values.take(k)), ..p }),
        refreshed(p, now, values, t).0 == p,
{
    lemma_first_unwritable(values, 0, k);
    lemma_values_writable(values, 0);
}

proof fn lemma_first_unwritable(values: Seq<ValueModel>, i: nat, k: int)
    requires
        i <= k < values.len(),
        value_fault(values[k]) is Some,
        forall|j: int| i <= j < k ==> value_fault(#[trigger] values[j]) is None,
    ensures
        good_from(values, i) == k,
    decreases k - i,
{
    if i < k {
        assert(value_fault(values[i as int]) is None);
        lemma_first_unwritable(values, i + 1, k);
    }
}

/// A frame that cannot be built is not sent: the numbers and the timetable stay, and nothing waits
/// that did not before.
pub proof fn lemma_unbuildable(p: PublisherModel, now: Instant)
    requires
        build_fault(p) is Some,
    ensures
        built(p, now) == (PublisherModel { frame: built(p, now).frame, ..p }),
        apdu_of(p).len() + 8 <= 65535 ==> built(p, now) == p,
        goose_fault(header_of(p)) is Some || apdu_of(p).len() > 65527,
{
}

} // verus!
