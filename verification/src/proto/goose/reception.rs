//! What a subscriber makes of each frame, said of the frame and of what the application is told.

use vstd::prelude::*;
use crate::common::{utc_nanos, Error, Instant};
use crate::proto::data::{collected, ValueModel};
use crate::proto::ethernet::{address_of, frame_of};
use crate::proto::goose::apdu::{count_of, goose_of, GooseHeaderModel, GooseModel};
use crate::proto::goose::subscriber::{
    after_frame, checked, drained, emptied, forgotten, fresh, runs_out, Accepted, EventModel,
    Invalid, SimulationMode, SubscriberConfigModel, SubscriberModel, SubscriberStats,
};

verus! {

/// Whether a frame holds a PDU of the stream that a subscriber follows, and one it need not drop:
/// the address, the control block and the configuration revision are those it expects, the two
/// simulation flags agree, and the members are as many as announced.
pub open spec fn carries(s: SubscriberModel, frame: Seq<u8>, m: GooseModel) -> bool {
    &&& frame_of(frame) matches Ok(f) && f.ethertype == 0x88B8 && f.dst == s.cfg.key.dst && f.appid
        == s.cfg.key.appid && goose_of(f.apdu) == Ok::<GooseModel, Error>(m) && m.header.simulation
        == (f.reserved1 >= 0x8000)
    &&& m.header.gocb_ref == s.cfg.key.gocb_ref
    &&& count_of(m.members.children()) == Some(m.header.num_dat_set_entries as nat)
    &&& s.conf_rev matches Some(c) ==> c == m.header.conf_rev
    &&& match s.cfg.simulation {
        SimulationMode::Off => !m.header.simulation,
        SimulationMode::Preferred => m.header.simulation == s.simulation_active,
    }
}

/// Whether the event queue has room for what one frame can bring.
pub open spec fn has_room(s: SubscriberModel) -> bool {
    s.events.items.len() + 3 <= s.events.capacity
}

/// What is appended when `ndsCom` is set for the first time.
pub open spec fn commissioning(s: SubscriberModel, h: GooseHeaderModel) -> Seq<EventModel> {
    if h.nds_com && !s.nds_com {
        seq![EventModel::NeedsCommissioning]
    } else {
        Seq::empty()
    }
}

/// What is remembered of a frame that was accepted at `now`: its numbers, and that it is good for
/// as many milliseconds as it allows.
pub open spec fn remembers(a: Option<Accepted>, h: GooseHeaderModel, now: Instant) -> bool {
    a matches Some(a) && a.st_num == h.st_num && a.sq_num == h.sq_num && a.t == h.t && a.arrived_at
        == now && (now.nanos + h.time_allowed_to_live * 1_000_000 <= u64::MAX ==> a.expires_at.nanos
        == now.nanos + h.time_allowed_to_live * 1_000_000)
}

/// One more, as long as the counter can count it.
pub open spec fn one_more(before: u64, after: u64) -> bool {
    if before < u64::MAX {
        after == before + 1
    } else {
        after == before
    }
}

/// Whether a subscriber holds a state that is still good.
pub open spec fn live(s: SubscriberModel, now: Instant, last: Accepted) -> bool {
    s.state == Some(last) && !s.expired && now.nanos < last.expires_at.nanos
}

/// Whether a number may follow another by a wrap: the one is among the last sixteen, and the other
/// among the first.
pub open spec fn over_the_top(last: u32, new: u32) -> bool {
    last >= 4_294_967_280 && new <= 16
}

/// While a state is good, a frame of the same `stNum` with any greater `sqNum` repeats it, however
/// many frames were lost in between: the application is told, and the state is good for as long
/// again. One whose `sqNum` has wrapped does so too.
pub proof fn lemma_repeats(
    s: SubscriberModel,
    now: Instant,
    frame: Seq<u8>,
    m: GooseModel,
    last: Accepted,
)
    requires
        carries(s, frame, m),
        has_room(s),
        live(s, now, last),
        m.header.st_num == last.st_num,
        m.header.sq_num > last.sq_num || over_the_top(last.sq_num, m.header.sq_num),
    ensures
        ({
            let r = after_frame(s, now, frame);
            &&& r.events.items == s.events.items.push(
                EventModel::Retransmission { st_num: m.header.st_num, sq_num: m.header.sq_num },
            ) + commissioning(s, m.header)
            &&& remembers(r.state, m.header, now)
            &&& !r.expired
            &&& one_more(s.stats.retransmissions, r.stats.retransmissions)
            &&& one_more(s.stats.accepted, r.stats.accepted)
            &&& r.stats.state_changes == s.stats.state_changes
            &&& r.stats.replays == s.stats.replays
            &&& r.stats.states_missed == s.stats.states_missed
            &&& r.state_changed_at == s.state_changed_at
        }),
{
    let r = after_frame(s, now, frame);
    assert(r.events.items =~= s.events.items.push(
        EventModel::Retransmission { st_num: m.header.st_num, sq_num: m.header.sq_num },
    ) + commissioning(s, m.header));
}

/// While a state is good, a frame with any greater `stNum` is a new state, and so is one whose
/// `stNum` has wrapped: the application gets its values, and those between are counted as missed.
pub proof fn lemma_new_state(
    s: SubscriberModel,
    now: Instant,
    frame: Seq<u8>,
    m: GooseModel,
    last: Accepted,
    values: Seq<ValueModel>,
)
    requires
        carries(s, frame, m),
        has_room(s),
        live(s, now, last),
        collected(m.members.children(), s.cfg.limits, 0, Seq::empty()) == Ok::<
            Seq<ValueModel>,
            Error,
        >(values),
        m.header.st_num > last.st_num || (m.header.st_num != last.st_num && over_the_top(
            last.st_num,
            m.header.st_num,
        )),
    ensures
        ({
            let r = after_frame(s, now, frame);
            let missed = if m.header.st_num > last.st_num {
                m.header.st_num - last.st_num - 1
            } else if m.header.st_num == 0 {
                4_294_967_295 - last.st_num
            } else {
                (4_294_967_295 - last.st_num) + (m.header.st_num - 1)
            };
            &&& r.events.items == s.events.items.push(
                EventModel::NewState {
                    st_num: m.header.st_num,
                    t: m.header.t,
                    values,
                    simulation: m.header.simulation,
                },
            ) + commissioning(s, m.header)
            &&& remembers(r.state, m.header, now)
            &&& !r.expired
            &&& one_more(s.stats.state_changes, r.stats.state_changes)
            &&& one_more(s.stats.accepted, r.stats.accepted)
            &&& r.stats.retransmissions == s.stats.retransmissions
            &&& r.stats.replays == s.stats.replays
            &&& r.state_changed_at == Some(now)
            &&& s.stats.states_missed + missed <= u64::MAX ==> r.stats.states_missed
                == s.stats.states_missed + missed
            &&& if missed > 0 {
                one_more(s.stats.state_gaps, r.stats.state_gaps)
            } else {
                r.stats.state_gaps == s.stats.state_gaps
            }
        }),
{
    let r = after_frame(s, now, frame);
    assert(r.events.items =~= s.events.items.push(
        EventModel::NewState {
            st_num: m.header.st_num,
            t: m.header.t,
            values,
            simulation: m.header.simulation,
        },
    ) + commissioning(s, m.header));
}

/// While a state is good, a frame that advances neither number is a replay: it is reported and
/// counted, and changes nothing else. In particular the state is good no longer than before.
pub proof fn lemma_replay_refused(
    s: SubscriberModel,
    now: Instant,
    frame: Seq<u8>,
    m: GooseModel,
    last: Accepted,
)
    requires
        carries(s, frame, m),
        has_room(s),
        live(s, now, last),
        m.header.st_num < last.st_num && !over_the_top(last.st_num, m.header.st_num) || (
        m.header.st_num == last.st_num && m.header.sq_num <= last.sq_num && !over_the_top(
            last.sq_num,
            m.header.sq_num,
        )),
    ensures
        ({
            let r = after_frame(s, now, frame);
            &&& r.events.items == s.events.items.push(
                EventModel::Invalid(
                    Invalid::Replay { st_num: m.header.st_num, sq_num: m.header.sq_num },
                ),
            )
            &&& r.state == s.state
            &&& r.expired == s.expired
            &&& r.deltas == s.deltas
            &&& r.nds_com == s.nds_com
            &&& one_more(s.stats.replays, r.stats.replays)
            &&& r.stats.accepted == s.stats.accepted
            &&& r.stats.state_changes == s.stats.state_changes
            &&& r.stats.retransmissions == s.stats.retransmissions
        }),
{
}

/// Where no state is good, because none was accepted or its time has run out, every frame is a new
/// state whatever its numbers are, and none counts as missed. That the time has run out is told
/// first, unless it was told before.
pub proof fn lemma_first_state(
    s: SubscriberModel,
    now: Instant,
    frame: Seq<u8>,
    m: GooseModel,
    values: Seq<ValueModel>,
)
    requires
        carries(s, frame, m),
        has_room(s),
        s.state matches Some(last) ==> s.expired || now.nanos >= last.expires_at.nanos,
        collected(m.members.children(), s.cfg.limits, 0, Seq::empty()) == Ok::<
            Seq<ValueModel>,
            Error,
        >(values),
    ensures
        ({
            let r = after_frame(s, now, frame);
            let event = EventModel::NewState {
                st_num: m.header.st_num,
                t: m.header.t,
                values,
                simulation: m.header.simulation,
            };
            let first = if s.state is Some && !s.expired {
                seq![EventModel::Expired, event]
            } else {
                seq![event]
            };
            &&& r.events.items == s.events.items + first + commissioning(s, m.header)
            &&& remembers(r.state, m.header, now)
            &&& !r.expired
            &&& one_more(s.stats.state_changes, r.stats.state_changes)
            &&& r.stats.states_missed == s.stats.states_missed
            &&& r.stats.replays == s.stats.replays
            &&& r.conf_rev == Some(m.header.conf_rev)
        }),
{
    let r = after_frame(s, now, frame);
    let event = EventModel::NewState {
        st_num: m.header.st_num,
        t: m.header.t,
        values,
        simulation: m.header.simulation,
    };
    let first = if s.state is Some && !s.expired {
        seq![EventModel::Expired, event]
    } else {
        seq![event]
    };
    assert(r.events.items =~= s.events.items + first + commissioning(s, m.header));
}

/// How an accepted frame differs from the one before it is the plain difference of the two: of
/// their numbers, of when they arrived, of their times, and from when the state last changed.
pub proof fn lemma_differences(
    s: SubscriberModel,
    now: Instant,
    frame: Seq<u8>,
    m: GooseModel,
    last: Accepted,
)
    requires
        carries(s, frame, m),
        live(s, now, last),
        now.nanos >= last.arrived_at.nanos,
        m.header.st_num == last.st_num,
        m.header.sq_num > last.sq_num,
    ensures
        after_frame(s, now, frame).deltas matches Some(d) && {
            &&& d.st_diff == 0
            &&& d.sq_diff == m.header.sq_num - last.sq_num
            &&& d.arrival_delta == now.nanos - last.arrived_at.nanos
            &&& d.t_delta == utc_nanos(m.header.t) - utc_nanos(last.t)
            &&& s.state_changed_at matches Some(at) ==> at.nanos <= now.nanos
                ==> d.since_state_change == now.nanos - at.nanos
            &&& s.state_changed_at is None ==> d.since_state_change == 0
        },
{
    lemma_nanos_fit(m.header.t);
    lemma_nanos_fit(last.t);
}

proof fn lemma_nanos_fit(t: crate::common::UtcTime)
    ensures
        0 <= utc_nanos(t) <= 4_294_967_296 * 1_000_000_000,
{
    let f = (t.raw as nat / 0x100) % 0x100_0000;
    assert(f * 1_000_000_000 / 0x100_0000 < 1_000_000_000);
}

/// A subscription says once that its time has run out, at the deadline and not before it, and a
/// frame that renews it moves the deadline.
pub proof fn lemma_deadline(s: SubscriberModel, now: Instant, last: Accepted)
    requires
        s.state == Some(last),
        has_room(s),
    ensures
        !s.expired && now.nanos >= last.expires_at.nanos ==> {
            &&& checked(s, now).events.items == s.events.items.push(EventModel::Expired)
            &&& checked(s, now).expired
            &&& one_more(s.stats.expiries, checked(s, now).stats.expiries)
        },
        s.expired || now.nanos < last.expires_at.nanos ==> checked(s, now) == s,
{
}

/// A frame of another stream, or of none, is counted and changes nothing else of a subscription
/// whose time has not run out.
pub proof fn lemma_other_traffic(s: SubscriberModel, now: Instant, frame: Seq<u8>)
    requires
        s.state matches Some(last) ==> s.expired || now.nanos < last.expires_at.nanos,
        match frame_of(frame) {
            Ok(f) => f.ethertype != 0x88B8 || f.dst != s.cfg.key.dst || f.appid != s.cfg.key.appid
                || (goose_of(f.apdu) matches Ok(m) && m.header.gocb_ref != s.cfg.key.gocb_ref),
            Err(_) => match address_of(frame) {
                Some(a) => a.ethertype != 0x88B8 || a.dst != s.cfg.key.dst || a.appid
                    != s.cfg.key.appid,
                None => true,
            },
        },
    ensures
        ({
            let r = after_frame(s, now, frame);
            &&& one_more(s.stats.other_stream, r.stats.other_stream)
            &&& r == (SubscriberModel {
                stats: SubscriberStats { other_stream: r.stats.other_stream, ..s.stats },
                ..s
            })
        }),
{
}

/// What is wrong with a frame of this stream is told by its reason, and the state that was good
/// stays as it was.
pub proof fn lemma_refused(s: SubscriberModel, now: Instant, frame: Seq<u8>, why: Invalid)
    requires
        s.state matches Some(last) ==> s.expired || now.nanos < last.expires_at.nanos,
        has_room(s),
        match frame_of(frame) {
            Err(e) => why == Invalid::Malformed(e) && (address_of(frame) matches Some(a)
                && a.ethertype == 0x88B8 && a.dst == s.cfg.key.dst && a.appid == s.cfg.key.appid),
            Ok(f) => f.ethertype == 0x88B8 && f.dst == s.cfg.key.dst && f.appid == s.cfg.key.appid
                && match goose_of(f.apdu) {
                Err(e) => why == Invalid::Malformed(e),
                Ok(m) => m.header.gocb_ref == s.cfg.key.gocb_ref && if m.header.simulation != (
                f.reserved1 >= 0x8000) {
                    why == Invalid::SimulationMismatch
                } else {
                    count_of(m.members.children()) != Some(m.header.num_dat_set_entries as nat)
                        && why == Invalid::MemberCountMismatch
                },
            },
        },
    ensures
        ({
            let r = after_frame(s, now, frame);
            &&& r.events.items == s.events.items.push(EventModel::Invalid(why))
            &&& r.state == s.state
            &&& r.expired == s.expired
            &&& r.conf_rev == s.conf_rev
            &&& r.stats.accepted == s.stats.accepted
            &&& r.stats.replays == s.stats.replays
            &&& why is Malformed ==> one_more(s.stats.malformed, r.stats.malformed)
            &&& why is SimulationMismatch ==> one_more(
                s.stats.simulation_mismatches,
                r.stats.simulation_mismatches,
            )
            &&& why is MemberCountMismatch ==> one_more(
                s.stats.member_count_mismatches,
                r.stats.member_count_mismatches,
            )
        }),
{
}

/// Whether a frame holds a PDU of this stream whose flags and member count are in order.
pub open spec fn in_order(s: SubscriberModel, frame: Seq<u8>, m: GooseModel) -> bool {
    &&& frame_of(frame) matches Ok(f) && f.ethertype == 0x88B8 && f.dst == s.cfg.key.dst && f.appid
        == s.cfg.key.appid && goose_of(f.apdu) == Ok::<GooseModel, Error>(m) && m.header.simulation
        == (f.reserved1 >= 0x8000)
    &&& m.header.gocb_ref == s.cfg.key.gocb_ref
    &&& count_of(m.members.children()) == Some(m.header.num_dat_set_entries as nat)
}

/// A frame with another configuration revision than the expected one, or than the first one seen,
/// is dropped and counted, and reported only if the one before it was not such a frame.
pub proof fn lemma_wrong_revision(
    s: SubscriberModel,
    now: Instant,
    frame: Seq<u8>,
    m: GooseModel,
    expected: u32,
)
    requires
        s.state matches Some(last) ==> s.expired || now.nanos < last.expires_at.nanos,
        has_room(s),
        in_order(s, frame, m),
        s.conf_rev == Some(expected),
        m.header.conf_rev != expected,
        match s.cfg.simulation {
            SimulationMode::Off => !m.header.simulation,
            SimulationMode::Preferred => m.header.simulation == s.simulation_active,
        },
    ensures
        ({
            let r = after_frame(s, now, frame);
            &&& r.events.items == if s.conf_rev_mismatch_reported {
                s.events.items
            } else {
                s.events.items.push(
                    EventModel::ConfRevMismatch { received: m.header.conf_rev, expected },
                )
            }
            &&& r.conf_rev_mismatch_reported
            &&& r.conf_rev == s.conf_rev
            &&& r.state == s.state
            &&& one_more(s.stats.conf_rev_dropped, r.stats.conf_rev_dropped)
            &&& r.stats.accepted == s.stats.accepted
        }),
{
}

/// Who ignores simulated frames drops and counts each of them, and reports the first of a run. Who
/// prefers them drops and counts every other frame once one has taken over.
pub proof fn lemma_wrong_stream(s: SubscriberModel, now: Instant, frame: Seq<u8>, m: GooseModel)
    requires
        s.state matches Some(last) ==> s.expired || now.nanos < last.expires_at.nanos,
        has_room(s),
        in_order(s, frame, m),
        match s.cfg.simulation {
            SimulationMode::Off => m.header.simulation,
            SimulationMode::Preferred => !m.header.simulation && s.simulation_active,
        },
    ensures
        ({
            let r = after_frame(s, now, frame);
            &&& r.events.items == if s.cfg.simulation == SimulationMode::Off
                && !s.simulation_reported {
                s.events.items.push(EventModel::IgnoredSimulation)
            } else {
                s.events.items
            }
            &&& one_more(s.stats.simulation_dropped, r.stats.simulation_dropped)
            &&& s.cfg.simulation == SimulationMode::Off ==> r.simulation_reported
            &&& r.simulation_active == s.simulation_active
            &&& r.state == s.state
            &&& r.conf_rev == s.conf_rev
            &&& r.stats.accepted == s.stats.accepted
        }),
{
}

/// The first simulated frame takes over from the real stream: the application is told that and
/// gets the state as a new one, whatever its numbers are beside those of the real stream.
pub proof fn lemma_taken_over(
    s: SubscriberModel,
    now: Instant,
    frame: Seq<u8>,
    m: GooseModel,
    values: Seq<ValueModel>,
)
    requires
        s.state matches Some(last) ==> s.expired || now.nanos < last.expires_at.nanos,
        has_room(s),
        in_order(s, frame, m),
        s.cfg.simulation == SimulationMode::Preferred,
        !s.simulation_active,
        m.header.simulation,
        !m.header.nds_com,
        s.conf_rev matches Some(c) ==> c == m.header.conf_rev,
        collected(m.members.children(), s.cfg.limits, 0, Seq::empty()) == Ok::<
            Seq<ValueModel>,
            Error,
        >(values),
    ensures
        ({
            let r = after_frame(s, now, frame);
            &&& r.events.items == s.events.items + seq![
                EventModel::SimulationTakeover,
                EventModel::NewState {
                    st_num: m.header.st_num,
                    t: m.header.t,
                    values,
                    simulation: true,
                },
            ]
            &&& r.simulation_active
            &&& remembers(r.state, m.header, now)
            &&& r.deltas is None
            &&& r.stats.states_missed == s.stats.states_missed
        }),
{
    let r = after_frame(s, now, frame);
    assert(r.events.items =~= s.events.items + seq![
        EventModel::SimulationTakeover,
        EventModel::NewState { st_num: m.header.st_num, t: m.header.t, values, simulation: true },
    ]);
}

/// A new subscriber has accepted nothing, expects the configured revision if there is one, and has
/// counted nothing.
pub proof fn lemma_new_subscriber(cfg: SubscriberConfigModel)
    ensures
        ({
            let s = fresh(cfg);
            &&& s.state is None && !s.expired && s.deltas is None && s.state_changed_at is None
            &&& s.conf_rev == cfg.expected_conf_rev
            &&& !s.simulation_active && !s.simulation_reported && !s.nds_com
                && !s.conf_rev_mismatch_reported
            &&& s.events.items.len() == 0 && s.events.dropped == 0
            &&& s.events.capacity == if cfg.event_capacity == 0 {
                1
            } else {
                cfg.event_capacity
            }
            &&& s.cfg == cfg
            &&& s.stats.accepted == 0 && s.stats.state_changes == 0 && s.stats.retransmissions == 0
            &&& s.stats.replays == 0 && s.stats.malformed == 0 && s.stats.expiries == 0
            &&& s.stats.other_stream == 0 && s.stats.states_missed == 0 && s.stats.state_gaps == 0
        }),
{
}

/// What is forgotten of a publisher is all that was learnt of it, and nothing of the counters, of
/// the configuration, or of what waits for the application.
pub proof fn lemma_forgotten(s: SubscriberModel)
    ensures
        ({
            let r = forgotten(s);
            &&& r.state is None && !r.expired && r.deltas is None && r.state_changed_at is None
                && !r.nds_com
            &&& r.cfg == s.cfg && r.stats == s.stats && r.events == s.events && r.conf_rev
                == s.conf_rev
        }),
{
}

/// A count one higher, up to its end.
pub open spec fn counted(n: u64) -> u64 {
    if n == 0xFFFF_FFFF_FFFF_FFFF {
        n
    } else {
        (n + 1) as u64
    }
}

/// Whether what a frame that was accepted changed besides the state, the counters and the events is
/// this: the flags of commissioning, the revision, and that neither a wrong revision nor a simulated
/// frame has been reported since.
pub open spec fn settled(s: SubscriberModel, r: SubscriberModel, h: GooseHeaderModel) -> bool {
    r == (SubscriberModel {
        state: r.state,
        deltas: r.deltas,
        state_changed_at: r.state_changed_at,
        events: r.events,
        stats: r.stats,
        expired: false,
        nds_com: h.nds_com,
        conf_rev: Some(h.conf_rev),
        conf_rev_mismatch_reported: if s.conf_rev is None {
            s.conf_rev_mismatch_reported
        } else {
            false
        },
        simulation_reported: if s.cfg.simulation == SimulationMode::Off {
            false
        } else {
            s.simulation_reported
        },
        ..s
    })
}

/// How often the need for commissioning changed.
pub open spec fn commissionings(s: SubscriberModel, h: GooseHeaderModel) -> u64 {
    if h.nds_com == s.nds_com {
        s.stats.commissioning_changes
    } else {
        counted(s.stats.commissioning_changes)
    }
}

/// A repetition counts as one and as accepted, and nothing else is counted or changed.
pub proof fn lemma_repeats_only(
    s: SubscriberModel,
    now: Instant,
    frame: Seq<u8>,
    m: GooseModel,
    last: Accepted,
)
    requires
        carries(s, frame, m),
        live(s, now, last),
        m.header.st_num == last.st_num,
        m.header.sq_num > last.sq_num || over_the_top(last.sq_num, m.header.sq_num),
    ensures
        ({
            let r = after_frame(s, now, frame);
            &&& settled(s, r, m.header)
            &&& r.stats == (SubscriberStats {
                retransmissions: counted(s.stats.retransmissions),
                accepted: counted(s.stats.accepted),
                commissioning_changes: commissionings(s, m.header),
                events_dropped: r.events.dropped,
                ..s.stats
            })
        }),
{
}

/// A new state counts as one and as accepted, with those that were missed, and nothing else is
/// counted or changed. How it differs from the one before is the plain difference of the two.
pub proof fn lemma_new_state_only(
    s: SubscriberModel,
    now: Instant,
    frame: Seq<u8>,
    m: GooseModel,
    last: Accepted,
)
    requires
        carries(s, frame, m),
        live(s, now, last),
        collected(m.members.children(), s.cfg.limits, 0, Seq::empty()) is Ok,
        m.header.st_num > last.st_num,
        now.nanos >= last.arrived_at.nanos,
    ensures
        ({
            let r = after_frame(s, now, frame);
            &&& settled(s, r, m.header)
            &&& r.stats == (SubscriberStats {
                state_changes: counted(s.stats.state_changes),
                accepted: counted(s.stats.accepted),
                state_gaps: r.stats.state_gaps,
                states_missed: r.stats.states_missed,
                commissioning_changes: commissionings(s, m.header),
                events_dropped: r.events.dropped,
                ..s.stats
            })
            &&& r.deltas matches Some(d) && {
                &&& d.st_diff == m.header.st_num - last.st_num
                &&& d.sq_diff == m.header.sq_num - last.sq_num
                &&& d.arrival_delta == now.nanos - last.arrived_at.nanos
                &&& d.t_delta == utc_nanos(m.header.t) - utc_nanos(last.t)
                &&& s.state_changed_at matches Some(at) ==> at.nanos <= now.nanos
                    ==> d.since_state_change == now.nanos - at.nanos
            }
        }),
{
    lemma_nanos_fit(m.header.t);
    lemma_nanos_fit(last.t);
}

/// A state whose values do not decode is refused, and the one that was good stays so.
pub proof fn lemma_values_refused(
    s: SubscriberModel,
    now: Instant,
    frame: Seq<u8>,
    m: GooseModel,
    last: Accepted,
    why: Error,
)
    requires
        carries(s, frame, m),
        has_room(s),
        live(s, now, last),
        m.header.st_num > last.st_num,
        collected(m.members.children(), s.cfg.limits, 0, Seq::empty()) == Err::<
            Seq<ValueModel>,
            Error,
        >(why),
    ensures
        ({
            let r = after_frame(s, now, frame);
            &&& r.events.items == s.events.items.push(EventModel::Invalid(Invalid::Malformed(why)))
            &&& r.state == s.state
            &&& r.expired == s.expired
            &&& r.deltas == s.deltas
            &&& r.stats == (SubscriberStats {
                malformed: counted(s.stats.malformed),
                events_dropped: r.events.dropped,
                ..s.stats
            })
        }),
{
}

/// Where there is no room the newest event is kept, the oldest makes way, and that is counted.
pub proof fn lemma_no_room(
    s: SubscriberModel,
    now: Instant,
    frame: Seq<u8>,
    m: GooseModel,
    last: Accepted,
)
    requires
        carries(s, frame, m),
        live(s, now, last),
        s.events.items.len() == s.events.capacity,
        s.events.capacity >= 1,
        m.header.st_num == last.st_num,
        m.header.sq_num > last.sq_num,
        m.header.nds_com == s.nds_com,
    ensures
        ({
            let r = after_frame(s, now, frame);
            &&& r.events.items == s.events.items.skip(1).push(
                EventModel::Retransmission { st_num: m.header.st_num, sq_num: m.header.sq_num },
            )
            &&& r.events.dropped == counted(s.events.dropped)
            &&& r.stats.events_dropped == counted(s.events.dropped)
        }),
{
}

/// The instant to wake at is the one at which the state that is good runs out: waking then tells so,
/// waking earlier tells nothing, and there is none before a state was accepted or after it ran out.
pub proof fn lemma_wakes(s: SubscriberModel, now: Instant)
    requires
        has_room(s),
    ensures
        runs_out(s) matches Some(at) ==> {
            &&& now.nanos < at.nanos ==> checked(s, now) == s
            &&& now.nanos >= at.nanos ==> checked(s, now).events.items == s.events.items.push(
                EventModel::Expired,
            ) && runs_out(checked(s, now)) is None
        },
        runs_out(s) is None ==> checked(s, now) == s,
        s.state is Some && !s.expired <==> runs_out(s) is Some,
{
}

/// Events are taken in the order in which they came, one at a time or all at once, and nothing else
/// changes.
pub proof fn lemma_taken(s: SubscriberModel)
    ensures
        s.events.items.len() > 0 ==> drained(s).events.items == s.events.items.subrange(
            1,
            s.events.items.len() as int,
        ),
        s.events.items.len() == 0 ==> drained(s).events.items.len() == 0,
        emptied(s).events.items.len() == 0,
        drained(s) == (SubscriberModel { events: drained(s).events, stats: drained(s).stats, ..s }),
        emptied(s) == (SubscriberModel { events: emptied(s).events, stats: emptied(s).stats, ..s }),
        drained(s).stats == (SubscriberStats { events_dropped: s.events.dropped, ..s.stats }),
        emptied(s).stats == (SubscriberStats { events_dropped: s.events.dropped, ..s.stats }),
        drained(s).events.dropped == s.events.dropped,
        emptied(s).events.dropped == s.events.dropped,
        drained(s).events.capacity == s.events.capacity,
        emptied(s).events.capacity == s.events.capacity,
{
    if s.events.items.len() > 0 {
        assert(s.events.items.skip(1) =~= s.events.items.subrange(
            1,
            s.events.items.len() as int,
        ));
    }
}

} // verus!
