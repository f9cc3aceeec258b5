//! What holds of every publisher and every subscriber.

use vstd::prelude::*;
use crate::ber::{laws, CursorModel};
use crate::common::queue::{bounded, bump, lemma_queue, pushed, QueueModel};
use crate::common::{later, Error, Instant, UtcTime};
use crate::proto::data::{
    collected, fits, lemma_values_round_trip, value_contents, value_tag, values_bytes, values_fault,
    values_from, ValueModel,
};
use crate::proto::ethernet::{
    frame_of, header_fits, is_simulated, lemma_frame_round_trip, parsed, FrameModel,
    ETHERTYPE_GOOSE,
};
use crate::proto::goose::apdu::{count_of, goose_of, lemma_goose_round_trip, GooseModel};
use crate::proto::goose::publisher::{
    advanced, apdu_of, build_fault, built, fresh, header_of, holding, in_step, interval_of, larger,
    link_of, next_number, publish_fault, published, tal_of, PublisherConfigModel, PublisherModel,
    Retransmission,
};
use crate::proto::goose::subscriber::{
    admitted, after_frame, checked, conf_rev_policy, emitted, ignored, judged, recorded, rejected,
    simulation_policy, state_counted, verdict_of, wrapped, Accepted, EventModel, Invalid,
    SimulationMode, SubscriberModel, SubscriberStats, Verdict,
};
use crate::proto::osi::cotp::pow2;

verus! {

// ---- the publisher ---------------------------------------------------------------------

/// `stNum` is never 0, and `sqNum` is 0 only in the frame of a state change.
pub proof fn lemma_numbers(p: PublisherModel, t: UtcTime, now: Instant)
    requires
        p.st_num >= 1,
    ensures
        advanced(p, t).st_num >= 1,
        advanced(p, t).st_num != p.st_num,
        advanced(p, t).sq_num == 0,
        built(p, now).st_num == p.st_num,
        build_fault(p) is None ==> built(p, now).sq_num >= 1 && built(p, now).built_sq_num
            == p.sq_num,
{
}

/// The counters of a publisher fit each other at every step: once a frame of the current state has
/// been built, the next `sqNum` is the one after that of the frame built last.
pub proof fn lemma_in_step(
    p: PublisherModel,
    cfg: PublisherConfigModel,
    values: Seq<ValueModel>,
    t: UtcTime,
    now: Instant,
)
    requires
        in_step(p),
    ensures
        in_step(fresh(cfg, values, t)),
        in_step(built(p, now)),
        in_step(published(p, now, values, t)),
        build_fault(p) is None ==> built(p, now).sq_num == next_number(
            built(p, now).built_sq_num,
        ),
        publish_fault(p, values, t) is None ==> published(p, now, values, t).built_sq_num == 0
            && published(p, now, values, t).sq_num == 1,
{
}

/// The curve starts with the first interval twice, doubles until the last one, and stays there.
pub proof fn lemma_curve(r: Retransmission, n: u32)
    requires
        1 <= n < u32::MAX,
    ensures
        interval_of(r, 0) == larger(r.min_time_ms, 1),
        interval_of(r, 1) == interval_of(r, 0),
        interval_of(r, (n + 1) as u32) == if 2 * interval_of(r, n) >= larger(
            r.max_time_ms,
            larger(r.min_time_ms, 1),
        ) {
            larger(r.max_time_ms, larger(r.min_time_ms, 1)) as int
        } else {
            2 * interval_of(r, n)
        },
        larger(r.min_time_ms, 1) <= interval_of(r, n) <= larger(
            r.max_time_ms,
            larger(r.min_time_ms, 1),
        ),
{
    let base = larger(r.min_time_ms, 1) as int;
    let p = pow2((n - 1) as nat) as int;
    assert(pow2(n as nat) == 2 * p);
    assert(base * (2 * p) == 2 * (base * p)) by (nonlinear_arith);
    lemma_pow2_positive((n - 1) as nat);
    assert(base * p >= base) by (nonlinear_arith)
        requires
            base >= 1,
            p >= 1,
    ;
    assert(p == 1 ==> base * p == base) by (nonlinear_arith);
    let after = (n + 1) as u32;
    assert(after - 1 == n);
    assert(pow2(0) == 1);
    assert(base * pow2(n as nat) == 2 * (base * p));
}

proof fn lemma_pow2_positive(e: nat)
    ensures
        pow2(e) >= 1,
    decreases e,
{
    if e > 0 {
        lemma_pow2_positive((e - 1) as nat);
    }
}

/// A frame allows to live at least until the next one is due, and with a factor of two for one
/// more interval, as far as the field can express it.
pub proof fn lemma_allowed_to_live(r: Retransmission, n: u32)
    ensures
        tal_of(r, n) >= interval_of(r, n),
        r.tal_factor >= 2 ==> tal_of(r, n) >= 2 * interval_of(r, n) || tal_of(r, n) == u32::MAX,
{
    let i = interval_of(r, n) as int;
    let f = larger(r.tal_factor, 1) as int;
    assert(i * f >= i) by (nonlinear_arith)
        requires
            i >= 0,
            f >= 1,
    ;
    if f >= 2 {
        assert(i * f >= 2 * i) by (nonlinear_arith)
            requires
                i >= 0,
                f >= 2,
        ;
    }
}

/// The frame that a publisher builds parses, and its PDU holds what the publisher holds. The
/// two simulation flags agree.
pub proof fn lemma_frame_holds(p: PublisherModel, now: Instant)
    requires
        build_fault(p) is None,
        header_fits(p.cfg.header),
    ensures
        frame_of(built(p, now).frame) == Ok::<FrameModel, Error>(parsed(link_of(p), apdu_of(p))),
        goose_of(apdu_of(p)) matches Ok(m) && m.header == header_of(p) && m.members.value
            == p.body,
        is_simulated(link_of(p).reserved1) == p.simulation,
{
    let f = built(p, now).frame;
    lemma_frame_round_trip(link_of(p), apdu_of(p), Seq::empty());
    assert(f + Seq::<u8>::empty() =~= f);
    lemma_goose_round_trip(header_of(p), p.body, Seq::empty());
    assert(apdu_of(p) + Seq::<u8>::empty() =~= apdu_of(p));
}

/// A subscriber that accepted a frame and is still live takes the next frame of the same
/// publisher for what it is: the same state once more, or a new one.
pub proof fn lemma_next_frame(s: SubscriberModel, last: Accepted, sq_num: u32)
    requires
        s.state == Some(last),
        !s.expired,
    ensures
        verdict_of(s, last.st_num, next_number(last.sq_num)) == Verdict::Retransmission,
        verdict_of(s, next_number(last.st_num), sq_num) == Verdict::New,
{
}

/// As many members are present as values were encoded.
proof fn lemma_count(values: Seq<ValueModel>, i: nat, offset: usize)
    requires
        i <= values.len(),
        values_from(values, i).len() <= u64::MAX,
    ensures
        count_of(CursorModel { bytes: values_from(values, i), offset }) == Some(
            (values.len() - i) as nat,
        ),
    decreases values.len() - i,
{
    if i < values.len() {
        let v = values[i as int];
        let rest = values_from(values, i + 1);
        laws::lemma_tlv_len(value_tag(v), value_contents(v));
        laws::lemma_first(value_tag(v), value_contents(v), rest, offset);
        let after = laws::cursor_after(value_tag(v), value_contents(v), rest, offset);
        lemma_count(values, i + 1, after.offset);
    }
}

/// Whether a subscriber was engineered for the stream of a publisher, and follows it: it takes no
/// simulated frame unless it prefers them, and no other once one has taken over.
pub open spec fn engineered(s: SubscriberModel, p: PublisherModel) -> bool {
    &&& header_fits(p.cfg.header)
    &&& p.cfg.header.ethertype == ETHERTYPE_GOOSE
    &&& p.cfg.header.dst == s.cfg.key.dst
    &&& p.cfg.header.appid == s.cfg.key.appid
    &&& p.cfg.gocb_ref == s.cfg.key.gocb_ref
    &&& s.conf_rev is None || s.conf_rev == Some(p.cfg.conf_rev)
    &&& match s.cfg.simulation {
        SimulationMode::Off => !p.simulation,
        SimulationMode::Preferred => p.simulation || !s.simulation_active,
    }
}

/// A subscriber when it judges a frame of a publisher: a state whose time is up has expired, and a
/// simulated stream has taken over if this is its first frame.
pub open spec fn at_judgement(
    s: SubscriberModel,
    p: PublisherModel,
    now: Instant,
) -> SubscriberModel {
    conf_rev_policy(
        simulation_policy(checked(s, now), p.simulation).0,
        p.cfg.conf_rev,
    ).0
}

/// What the application is told of a frame that is accepted, and then of commissioning, where the
/// frame is the first to ask for it.
pub open spec fn told(
    d: SubscriberModel,
    p: PublisherModel,
    event: EventModel,
) -> QueueModel<EventModel> {
    if p.cfg.nds_com && !d.nds_com {
        pushed(pushed(d.events, event), EventModel::NeedsCommissioning)
    } else {
        pushed(d.events, event)
    }
}

/// Whether a publisher holds these values, and a subscriber takes them.
pub open spec fn holds_values(
    s: SubscriberModel,
    p: PublisherModel,
    values: Seq<ValueModel>,
) -> bool {
    &&& p.body == values_bytes(values)
    &&& p.members == values.len()
    &&& values_fault(values) is None
    &&& values.len() <= s.cfg.limits.max_dataset_members
    &&& forall|j: int| 0 <= j < values.len() ==> fits(#[trigger] values[j], s.cfg.limits, 0)
}

/// What a publisher sends, a subscriber that was engineered for it gets: a state that is new to
/// it with the very values that were published, and a state that it knows as a retransmission.
/// The frame is then the one that the next one is compared with.
pub proof fn lemma_published_arrives(
    s: SubscriberModel,
    p: PublisherModel,
    values: Seq<ValueModel>,
    sent: Instant,
    now: Instant,
)
    requires
        build_fault(p) is None,
        engineered(s, p),
        holds_values(s, p, values),
    ensures
        ({
            let d = at_judgement(s, p, now);
            let r = after_frame(s, now, built(p, sent).frame);
            let verdict = verdict_of(d, p.st_num, p.sq_num);
            &&& verdict == Verdict::New ==> r.events == told(
                d,
                p,
                EventModel::NewState {
                    st_num: p.st_num,
                    t: p.t,
                    values,
                    simulation: p.simulation,
                },
            )
            &&& verdict == Verdict::Retransmission ==> r.events == told(
                d,
                p,
                EventModel::Retransmission { st_num: p.st_num, sq_num: p.sq_num },
            )
            &&& verdict != Verdict::Replay ==> {
                &&& r.state matches Some(a) && a.st_num == p.st_num && a.sq_num == p.sq_num
                    && a.arrived_at == now && a.expires_at == later(
                    now,
                    tal_of(p.cfg.retransmission, p.sent_in_state) as nat,
                )
                &&& !r.expired
                &&& r.conf_rev == Some(p.cfg.conf_rev)
                &&& r.nds_com == p.cfg.nds_com
                &&& p.simulation && s.cfg.simulation == SimulationMode::Preferred
                    ==> r.simulation_active
            }
        }),
{
    broadcast use laws::lemma_tlv_len;

    lemma_frame_holds(p, sent);
    let m = goose_of(apdu_of(p))->Ok_0;
    let at = m.members.value_offset;
    assert(values_bytes(values).len() <= u64::MAX) by {
        assert(apdu_of(p).len() <= 65535);
        lemma_body_within(p);
    }
    lemma_count(values, 0, at);
    lemma_values_round_trip(values, 0, s.cfg.limits, 0, at, Seq::empty());
    assert(Seq::<ValueModel>::empty() + values.skip(0) =~= values);
    let d = at_judgement(s, p, now);
    assert(d.cfg == s.cfg);
    assert(after_frame(s, now, built(p, sent).frame) == judged(d, now, m));
}

/// Values that are published reach a subscriber that was engineered for the stream as the very
/// values, under the next `stNum`, unless the replay rule refuses that number. They are the last
/// that the application is told, but for the first frame that asks for commissioning.
pub proof fn lemma_publication_arrives(
    s: SubscriberModel,
    p: PublisherModel,
    values: Seq<ValueModel>,
    t: UtcTime,
    sent: Instant,
    now: Instant,
)
    requires
        publish_fault(p, values, t) is None,
        engineered(s, p),
        values.len() <= s.cfg.limits.max_dataset_members,
        values.len() <= u32::MAX,
        forall|j: int| 0 <= j < values.len() ==> fits(#[trigger] values[j], s.cfg.limits, 0),
        bounded(s.events),
        verdict_of(at_judgement(s, p, now), next_number(p.st_num), 0) == Verdict::New,
    ensures
        ({
            let d = at_judgement(s, p, now);
            let r = after_frame(s, now, published(p, sent, values, t).frame);
            let event = EventModel::NewState {
                st_num: next_number(p.st_num),
                t,
                values,
                simulation: p.simulation,
            };
            &&& r.events == told(d, p, event)
            &&& !p.cfg.nds_com || s.nds_com && !p.simulation ==> r.events.items.last() == event
        }),
{
    let q = advanced(holding(p, values), t);
    assert(q.members == values.len());
    assert(at_judgement(s, q, now) == at_judgement(s, p, now));
    lemma_published_arrives(s, q, values, sent, now);
    let d = at_judgement(s, p, now);
    let event = EventModel::NewState {
        st_num: next_number(p.st_num),
        t,
        values,
        simulation: p.simulation,
    };
    lemma_queue(s.events, EventModel::Expired);
    let c = checked(s, now);
    lemma_queue(c.events, EventModel::SimulationTakeover);
    lemma_queue(d.events, event);
}

/// The first simulated frame takes over from the real stream whatever its counters are: it is a
/// new state to a subscriber that prefers it.
pub proof fn lemma_takeover_is_new(s: SubscriberModel, p: PublisherModel, now: Instant)
    requires
        s.cfg.simulation == SimulationMode::Preferred,
        !s.simulation_active,
        p.simulation,
    ensures
        verdict_of(at_judgement(s, p, now), p.st_num, p.sq_num) == Verdict::New,
{
}

/// The members are no longer than the APDU that holds them.
proof fn lemma_body_within(p: PublisherModel)
    ensures
        p.body.len() <= apdu_of(p).len(),
{
    broadcast use laws::lemma_tlv_len;

}

// ---- the replay rule -------------------------------------------------------------------

/// While a state is live, a frame that repeats it, or one of an earlier state, is a replay,
/// unless the counter wrapped; and once nothing is live, every frame is a new state.
pub proof fn lemma_replay_rule(s: SubscriberModel, last: Accepted, st_num: u32, sq_num: u32)
    requires
        s.state == Some(last),
    ensures
        !s.expired && st_num == last.st_num && sq_num <= last.sq_num && !wrapped(
            last.sq_num,
            sq_num,
        ) ==> verdict_of(s, st_num, sq_num) == Verdict::Replay,
        !s.expired ==> verdict_of(s, last.st_num, last.sq_num) == Verdict::Replay,
        !s.expired && st_num < last.st_num && !wrapped(last.st_num, st_num) ==> verdict_of(
            s,
            st_num,
            sq_num,
        ) == Verdict::Replay,
        s.expired ==> verdict_of(s, st_num, sq_num) == Verdict::New,
{
}

/// A frame that was accepted is a replay when it comes again while its state is live: it
/// changes nothing but the counter and the queue.
pub proof fn lemma_replayed(s: SubscriberModel, m: GooseModel, now: Instant)
    requires
        s.state matches Some(a) && a.st_num == m.header.st_num && a.sq_num == m.header.sq_num,
        !s.expired,
    ensures
        judged(s, now, m) == rejected(
            s,
            Invalid::Replay { st_num: m.header.st_num, sq_num: m.header.sq_num },
        ),
        judged(s, now, m).state == s.state,
        judged(s, now, m).deltas == s.deltas,
        judged(s, now, m).stats.replays == bump(s.stats.replays),
        judged(s, now, m).stats.accepted == s.stats.accepted,
{
}

/// `stNum` goes backwards only after the state it belonged to had expired, or by a wrap.
pub proof fn lemma_backwards(s: SubscriberModel, m: GooseModel, now: Instant, last: Accepted)
    requires
        s.state == Some(last),
    ensures
        judged(s, now, m).state matches Some(a) && (a.st_num >= last.st_num || s.expired
            || wrapped(last.st_num, a.st_num)),
{
}

// ---- expiry ----------------------------------------------------------------------------

/// A subscription goes stale at its deadline and not before, and says so once: a later tick
/// finds nothing to do.
pub proof fn lemma_expiry(s: SubscriberModel, now: Instant, again: Instant)
    ensures
        s.state matches Some(a) && now.nanos < a.expires_at.nanos ==> checked(s, now) == s,
        s.state is None ==> checked(s, now) == s,
        s.state matches Some(a) && now.nanos >= a.expires_at.nanos ==> checked(s, now).expired,
        checked(s, now).expired ==> checked(checked(s, now), again) == checked(s, now),
        checked(s, now).state == s.state,
{
}

// ---- what is reported once -------------------------------------------------------------

/// A wrong `confRev` is reported once, however many frames carry it, and again only after a
/// right one.
pub proof fn lemma_conf_rev_once(s: SubscriberModel, wrong: u32, again: u32, right: u32)
    requires
        s.conf_rev == Some(right),
        wrong != right,
        again != right,
    ensures
        ({
            let (a, _) = conf_rev_policy(s, wrong);
            let (b, through) = conf_rev_policy(a, again);
            let (c, _) = conf_rev_policy(b, right);
            &&& !through
            &&& b.events == a.events
            &&& b.stats.conf_rev_dropped == bump(a.stats.conf_rev_dropped)
            &&& a.conf_rev_mismatch_reported
            &&& !c.conf_rev_mismatch_reported
        }),
{
}

/// Where simulated frames are ignored, they are reported once, and again only after a real one.
pub proof fn lemma_simulation_once(s: SubscriberModel)
    requires
        s.cfg.simulation == SimulationMode::Off,
    ensures
        ({
            let (a, first) = simulation_policy(s, true);
            let (b, second) = simulation_policy(a, true);
            let (c, third) = simulation_policy(b, false);
            &&& !first
            &&& !second
            &&& third
            &&& b.events == a.events
            &&& !c.simulation_reported
        }),
{
}

/// Where simulated frames are preferred, the first one takes the stream over, every later real
/// one is dropped, and nothing that was known of the real publisher counts against the other.
pub proof fn lemma_takeover(s: SubscriberModel, m: GooseModel)
    requires
        s.cfg.simulation == SimulationMode::Preferred,
        !s.simulation_active,
    ensures
        ({
            let (a, through) = simulation_policy(s, true);
            &&& through
            &&& a.simulation_active
            &&& verdict_of(a, m.header.st_num, m.header.sq_num) == Verdict::New
            &&& !simulation_policy(a, false).1
        }),
{
}

/// `ndsCom` is reported when it is set, and not again while it stays set.
pub proof fn lemma_commissioning_once(s: SubscriberModel, now: Instant, m: GooseModel, change: bool)
    requires
        s.nds_com,
        m.header.nds_com,
    ensures
        recorded(s, now, m, change).events == s.events,
        recorded(s, now, m, change).stats.commissioning_changes == s.stats.commissioning_changes,
{
}

/// Every rejection moves the counter of its reason, and no other of these.
pub proof fn lemma_rejection_counts(s: SubscriberModel, why: Invalid)
    ensures
        ({
            let b = rejected(s, why).stats;
            &&& b.malformed == if why is Malformed {
                bump(s.stats.malformed)
            } else {
                s.stats.malformed
            }
            &&& b.simulation_mismatches == if why is SimulationMismatch {
                bump(s.stats.simulation_mismatches)
            } else {
                s.stats.simulation_mismatches
            }
            &&& b.member_count_mismatches == if why is MemberCountMismatch {
                bump(s.stats.member_count_mismatches)
            } else {
                s.stats.member_count_mismatches
            }
            &&& b.replays == if why is Replay {
                bump(s.stats.replays)
            } else {
                s.stats.replays
            }
            &&& b.accepted == s.stats.accepted
        }),
        rejected(s, why).state == s.state,
{
}

// ---- the queue -------------------------------------------------------------------------

/// However many frames arrive, the queue of a subscriber never holds more than its capacity.
pub proof fn lemma_events_bounded(s: SubscriberModel, now: Instant, frame: Seq<u8>)
    requires
        bounded(s.events),
    ensures
        bounded(checked(s, now).events),
        bounded(after_frame(s, now, frame).events),
{
    lemma_queue(s.events, EventModel::Expired);
    let c = checked(s, now);
    if let Ok(f) = frame_of(frame) {
        if let Ok(m) = goose_of(f.apdu) {
            lemma_admitted_bounded(c, now, m);
        }
        lemma_rejected_bounded(c);
    } else {
        lemma_rejected_bounded(c);
    }
}

proof fn lemma_rejected_bounded(s: SubscriberModel)
    requires
        bounded(s.events),
    ensures
        forall|why: Invalid| bounded(#[trigger] rejected(s, why).events),
        forall|e: EventModel| bounded(#[trigger] emitted(s, e).events),
        bounded(ignored(s).events),
{
    assert forall|why: Invalid| bounded(#[trigger] rejected(s, why).events) by {
        lemma_queue(s.events, EventModel::Invalid(why));
    }
    assert forall|e: EventModel| bounded(#[trigger] emitted(s, e).events) by {
        lemma_queue(s.events, e);
    }
}

proof fn lemma_admitted_bounded(s: SubscriberModel, now: Instant, m: GooseModel)
    requires
        bounded(s.events),
    ensures
        bounded(admitted(s, now, m).events),
{
    lemma_queue(s.events, EventModel::IgnoredSimulation);
    lemma_queue(s.events, EventModel::SimulationTakeover);
    let (b, _) = simulation_policy(s, m.header.simulation);
    if let Some(expected) = b.conf_rev {
        lemma_queue(
            b.events,
            EventModel::ConfRevMismatch { received: m.header.conf_rev, expected },
        );
    }
    let (c, _) = conf_rev_policy(b, m.header.conf_rev);
    lemma_rejected_bounded(c);
    lemma_judged_bounded(c, now, m);
}

proof fn lemma_judged_bounded(s: SubscriberModel, now: Instant, m: GooseModel)
    requires
        bounded(s.events),
    ensures
        bounded(judged(s, now, m).events),
{
    let h = m.header;
    lemma_rejected_bounded(s);
    if let Ok(values) = collected(m.members.children(), s.cfg.limits, 0, Seq::empty()) {
        let e = EventModel::NewState { st_num: h.st_num, t: h.t, values, simulation: h.simulation };
        lemma_queue(s.events, e);
        lemma_recorded_bounded(emitted(state_counted(s, h.st_num), e), now, m);
    }
    let e = EventModel::Retransmission { st_num: h.st_num, sq_num: h.sq_num };
    lemma_queue(s.events, e);
    if verdict_of(s, h.st_num, h.sq_num) == Verdict::Retransmission {
        lemma_recorded_bounded(
            emitted(
                SubscriberModel {
                    stats: SubscriberStats {
                        retransmissions: bump(s.stats.retransmissions),
                        ..s.stats
                    },
                    ..s
                },
                e,
            ),
            now,
            m,
        );
    }
}

proof fn lemma_recorded_bounded(s: SubscriberModel, now: Instant, m: GooseModel)
    requires
        bounded(s.events),
    ensures
        forall|change: bool| bounded(#[trigger] recorded(s, now, m, change).events),
{
    lemma_queue(s.events, EventModel::NeedsCommissioning);
}

} // verus!
