//! The GOOSE subscriber, with the replay protection that every subscriber runs.

use vstd::prelude::*;
use vstd::string::*;
use crate::ber::list::views;
use crate::ber::{same_octets, same_text};
use crate::common::queue::{bump, empty_queue, popped, pushed, QueueModel};
use crate::common::{default_limits, later, utc_nanos, Error, EventQueue, Instant, Limits, UtcTime};
use crate::proto::data::{collected, models, Value, ValueModel};
use crate::proto::ethernet::{
    address_of, frame_of, is_simulated, Frame, FrameAddress, FrameModel, MacAddr, ETHERTYPE_GOOSE,
};
use crate::proto::goose::apdu::{counts_match, goose_of, GooseModel, GoosePduView};

verus! {

/// What identifies the stream a subscriber wants.
#[derive(Clone, Debug, PartialEq, Eq)]
pub struct SubscriptionKey {
    /// Destination address.
    pub dst: MacAddr,
    /// APPID.
    pub appid: u16,
    /// `gocbRef` the frames must carry.
    pub gocb_ref: String,
}

/// What a [`SubscriptionKey`] stands for.
pub struct KeyModel {
    pub dst: Seq<u8>,
    pub appid: u16,
    pub gocb_ref: Seq<char>,
}

impl View for SubscriptionKey {
    type V = KeyModel;

    open spec fn view(&self) -> KeyModel {
        KeyModel { dst: self.dst@, appid: self.appid, gocb_ref: self.gocb_ref@ }
    }
}

/// How the subscribing device treats the simulation bit.
#[derive(Clone, Copy, Debug, PartialEq, Eq, Structural)]
pub enum SimulationMode {
    /// Only real frames are processed. Simulated ones are counted and reported once.
    Off,
    /// Simulated frames are preferred: until the first one arrives the real stream is used, and
    /// from then on the real stream is ignored.
    Preferred,
}

impl Default for SimulationMode {
    fn default() -> (r: SimulationMode)
        ensures
            r == SimulationMode::Off,
    {
        SimulationMode::Off
    }
}

/// Subscriber configuration.
#[derive(Clone, Debug, PartialEq, Eq)]
pub struct SubscriberConfig {
    /// The stream.
    pub key: SubscriptionKey,
    /// Expected `confRev`; `None` adopts the first one seen.
    pub expected_conf_rev: Option<u32>,
    /// How the simulation bit is treated.
    pub simulation: SimulationMode,
    /// What is decoded.
    pub limits: Limits,
    /// Events kept for the application.
    pub event_capacity: usize,
}

/// What a [`SubscriberConfig`] stands for.
pub struct SubscriberConfigModel {
    pub key: KeyModel,
    pub expected_conf_rev: Option<u32>,
    pub simulation: SimulationMode,
    pub limits: Limits,
    pub event_capacity: usize,
}

impl View for SubscriberConfig {
    type V = SubscriberConfigModel;

    open spec fn view(&self) -> SubscriberConfigModel {
        SubscriberConfigModel {
            key: self.key@,
            expected_conf_rev: self.expected_conf_rev,
            simulation: self.simulation,
            limits: self.limits,
            event_capacity: self.event_capacity,
        }
    }
}

impl SubscriberConfig {
    /// The defaults: adopt the first `confRev`, ignore simulated frames, 64 events.
    pub fn new(key: SubscriptionKey) -> (r: SubscriberConfig)
        ensures
            r@ == (SubscriberConfigModel {
                key: key@,
                expected_conf_rev: None,
                simulation: SimulationMode::Off,
                limits: default_limits(),
                event_capacity: 64,
            }),
    {
        SubscriberConfig {
            key,
            expected_conf_rev: None,
            simulation: SimulationMode::Off,
            limits: Limits::default(),
            event_capacity: 64,
        }
    }

    /// Require this `confRev`.
    pub fn with_conf_rev(self, conf_rev: u32) -> (r: SubscriberConfig)
        ensures
            r@ == (SubscriberConfigModel { expected_conf_rev: Some(conf_rev), ..self@ }),
    {
        SubscriberConfig { expected_conf_rev: Some(conf_rev), ..self }
    }

    /// Set the simulation mode.
    pub fn with_simulation(self, mode: SimulationMode) -> (r: SubscriberConfig)
        ensures
            r@ == (SubscriberConfigModel { simulation: mode, ..self@ }),
    {
        SubscriberConfig { simulation: mode, ..self }
    }
}

/// Why a frame was rejected.
#[derive(Clone, Copy, Debug, PartialEq, Eq)]
pub enum Invalid {
    /// A frame of this stream that did not decode.
    Malformed(Error),
    /// The simulation bit of the frame and the flag of the PDU disagree.
    SimulationMismatch,
    /// The frame repeats or predates the current state while that is live.
    Replay {
        /// The frame's `stNum`.
        st_num: u32,
        /// The frame's `sqNum`.
        sq_num: u32,
    },
    /// `numDatSetEntries` disagrees with the members present.
    MemberCountMismatch,
}

/// What the subscriber tells the application.
#[derive(Clone, Debug, PartialEq)]
pub enum SubscriberEvent {
    /// A new state, with its values.
    NewState {
        /// `stNum`.
        st_num: u32,
        /// `t`, as the publisher stamped it.
        t: UtcTime,
        /// The values.
        values: Vec<Value>,
        /// Whether the frame carried the simulation flag.
        simulation: bool,
    },
    /// A retransmission of the current state.
    Retransmission {
        /// `stNum`.
        st_num: u32,
        /// `sqNum`.
        sq_num: u32,
    },
    /// No frame arrived within `timeAllowedtoLive`.
    Expired,
    /// The publisher signals `ndsCom`.
    NeedsCommissioning,
    /// The frame's `confRev` is not the expected one; it was dropped. Once per transition.
    ConfRevMismatch {
        /// What the frame carried.
        received: u32,
        /// What was expected.
        expected: u32,
    },
    /// A simulated frame arrived while they are ignored. Once per transition.
    IgnoredSimulation,
    /// The first simulated frame arrived, and the real stream is ignored from now on.
    SimulationTakeover,
    /// A frame was rejected.
    Invalid(Invalid),
}

/// What a [`SubscriberEvent`] stands for.
pub enum EventModel {
    NewState { st_num: u32, t: UtcTime, values: Seq<ValueModel>, simulation: bool },
    Retransmission { st_num: u32, sq_num: u32 },
    Expired,
    NeedsCommissioning,
    ConfRevMismatch { received: u32, expected: u32 },
    IgnoredSimulation,
    SimulationTakeover,
    Invalid(Invalid),
}

impl View for SubscriberEvent {
    type V = EventModel;

    open spec fn view(&self) -> EventModel {
        match *self {
            SubscriberEvent::NewState { st_num, t, values, simulation } => EventModel::NewState {
                st_num,
                t,
                values: models(values@),
                simulation,
            },
            SubscriberEvent::Retransmission { st_num, sq_num } => EventModel::Retransmission {
                st_num,
                sq_num,
            },
            SubscriberEvent::Expired => EventModel::Expired,
            SubscriberEvent::NeedsCommissioning => EventModel::NeedsCommissioning,
            SubscriberEvent::ConfRevMismatch { received, expected } => {
                EventModel::ConfRevMismatch { received, expected }
            },
            SubscriberEvent::IgnoredSimulation => EventModel::IgnoredSimulation,
            SubscriberEvent::SimulationTakeover => EventModel::SimulationTakeover,
            SubscriberEvent::Invalid(why) => EventModel::Invalid(why),
        }
    }
}

/// The counters of a subscriber.
#[derive(Clone, Copy, Debug, PartialEq, Eq, Structural)]
pub struct SubscriberStats {
    /// Frames that matched the subscription and were accepted.
    pub accepted: u64,
    /// New states seen.
    pub state_changes: u64,
    /// Retransmissions seen.
    pub retransmissions: u64,
    /// Frames rejected as replay or duplicate.
    pub replays: u64,
    /// Times states were skipped while the previous one was live.
    pub state_gaps: u64,
    /// How many states those gaps add up to.
    pub states_missed: u64,
    /// Frames of this stream that did not decode.
    pub malformed: u64,
    /// Frames whose two simulation flags disagreed.
    pub simulation_mismatches: u64,
    /// Frames whose `numDatSetEntries` disagreed with the members present.
    pub member_count_mismatches: u64,
    /// Frames dropped because of the simulation mode.
    pub simulation_dropped: u64,
    /// Frames dropped because of their `confRev`.
    pub conf_rev_dropped: u64,
    /// Times the subscription went stale.
    pub expiries: u64,
    /// Times the publisher started, or stopped, signalling `ndsCom`.
    pub commissioning_changes: u64,
    /// Frames that were not of this stream.
    pub other_stream: u64,
    /// Events pushed out because the application was not draining the queue.
    pub events_dropped: u64,
}

/// Every counter at zero.
pub open spec fn no_stats() -> SubscriberStats {
    SubscriberStats {
        accepted: 0,
        state_changes: 0,
        retransmissions: 0,
        replays: 0,
        state_gaps: 0,
        states_missed: 0,
        malformed: 0,
        simulation_mismatches: 0,
        member_count_mismatches: 0,
        simulation_dropped: 0,
        conf_rev_dropped: 0,
        expiries: 0,
        commissioning_changes: 0,
        other_stream: 0,
        events_dropped: 0,
    }
}

impl Default for SubscriberStats {
    fn default() -> (r: SubscriberStats)
        ensures
            r == no_stats(),
    {
        SubscriberStats {
            accepted: 0,
            state_changes: 0,
            retransmissions: 0,
            replays: 0,
            state_gaps: 0,
            states_missed: 0,
            malformed: 0,
            simulation_mismatches: 0,
            member_count_mismatches: 0,
            simulation_dropped: 0,
            conf_rev_dropped: 0,
            expiries: 0,
            commissioning_changes: 0,
            other_stream: 0,
            events_dropped: 0,
        }
    }
}

/// How a frame differs from the one accepted before it.
#[derive(Clone, Copy, Debug, PartialEq, Eq, Structural)]
pub struct FrameDeltas {
    /// `stNum` less the previous one's.
    pub st_diff: i64,
    /// `sqNum` less the previous one's.
    pub sq_diff: i64,
    /// Nanoseconds between the two arrivals, on the subscriber's own clock.
    pub arrival_delta: u64,
    /// Nanoseconds between the two `t`.
    pub t_delta: i64,
    /// Nanoseconds since the last accepted state change.
    pub since_state_change: u64,
}

impl Default for FrameDeltas {
    /// No difference.
    fn default() -> (r: FrameDeltas)
        ensures
            r == (FrameDeltas {
                st_diff: 0,
                sq_diff: 0,
                arrival_delta: 0,
                t_delta: 0,
                since_state_change: 0,
            }),
    {
        FrameDeltas { st_diff: 0, sq_diff: 0, arrival_delta: 0, t_delta: 0, since_state_change: 0 }
    }
}

/// What the last accepted frame established.
#[derive(Clone, Copy, Debug, PartialEq, Eq, Structural)]
pub struct Accepted {
    /// Its `stNum`.
    pub st_num: u32,
    /// Its `sqNum`.
    pub sq_num: u32,
    /// When it arrived.
    pub arrived_at: Instant,
    /// Its `t`.
    pub t: UtcTime,
    /// When its state stops being live.
    pub expires_at: Instant,
}

/// What a [`Subscriber`] stands for.
pub struct SubscriberModel {
    /// What it was configured with.
    pub cfg: SubscriberConfigModel,
    /// The last accepted frame.
    pub state: Option<Accepted>,
    /// The `confRev` of the stream.
    pub conf_rev: Option<u32>,
    /// Whether a wrong `confRev` was reported and has not been right since.
    pub conf_rev_mismatch_reported: bool,
    /// The last `ndsCom`.
    pub nds_com: bool,
    /// Whether a simulated frame was reported and none was real since.
    pub simulation_reported: bool,
    /// Whether a simulated frame has taken over the stream.
    pub simulation_active: bool,
    /// Whether the state is no longer live.
    pub expired: bool,
    /// The events that wait for the application.
    pub events: QueueModel<EventModel>,
    /// The counters.
    pub stats: SubscriberStats,
    /// How the last accepted frame differs from the one before it.
    pub deltas: Option<FrameDeltas>,
    /// When the last accepted state change arrived.
    pub state_changed_at: Option<Instant>,
}

// ---- the rules -------------------------------------------------------------------------

/// A subscriber that waits for its first frame.
pub open spec fn fresh(cfg: SubscriberConfigModel) -> SubscriberModel {
    SubscriberModel {
        cfg,
        state: None,
        conf_rev: cfg.expected_conf_rev,
        conf_rev_mismatch_reported: false,
        nds_com: false,
        simulation_reported: false,
        simulation_active: false,
        expired: false,
        events: empty_queue(cfg.event_capacity),
        stats: no_stats(),
        deltas: None,
        state_changed_at: None,
    }
}

/// An event is queued for the application.
pub open spec fn emitted(s: SubscriberModel, event: EventModel) -> SubscriberModel {
    SubscriberModel {
        events: pushed(s.events, event),
        stats: SubscriberStats {
            events_dropped: pushed(s.events, event).dropped,
            ..s.stats
        },
        ..s
    }
}

/// The subscription goes stale once, when `timeAllowedtoLive` has elapsed.
pub open spec fn checked(s: SubscriberModel, now: Instant) -> SubscriberModel {
    if s.state matches Some(a) && !s.expired && now.nanos >= a.expires_at.nanos {
        emitted(
            SubscriberModel {
                expired: true,
                stats: SubscriberStats { expiries: bump(s.stats.expiries), ..s.stats },
                ..s
            },
            EventModel::Expired,
        )
    } else {
        s
    }
}

/// A frame of another stream.
pub open spec fn ignored(s: SubscriberModel) -> SubscriberModel {
    SubscriberModel {
        stats: SubscriberStats { other_stream: bump(s.stats.other_stream), ..s.stats },
        ..s
    }
}

/// A frame is rejected: the counter of the reason moves, and it is reported.
pub open spec fn rejected(s: SubscriberModel, why: Invalid) -> SubscriberModel {
    let stats = match why {
        Invalid::Malformed(_) => SubscriberStats {
            malformed: bump(s.stats.malformed),
            ..s.stats
        },
        Invalid::SimulationMismatch => SubscriberStats {
            simulation_mismatches: bump(s.stats.simulation_mismatches),
            ..s.stats
        },
        Invalid::MemberCountMismatch => SubscriberStats {
            member_count_mismatches: bump(s.stats.member_count_mismatches),
            ..s.stats
        },
        Invalid::Replay { .. } => SubscriberStats { replays: bump(s.stats.replays), ..s.stats },
    };
    emitted(SubscriberModel { stats, ..s }, EventModel::Invalid(why))
}

/// Everything that describes which publisher was followed is forgotten.
pub open spec fn forgotten(s: SubscriberModel) -> SubscriberModel {
    SubscriberModel {
        state: None,
        expired: false,
        deltas: None,
        state_changed_at: None,
        nds_com: false,
        ..s
    }
}

/// What the simulation mode makes of a frame, and whether it lets it through.
pub open spec fn simulation_policy(s: SubscriberModel, simulated: bool) -> (SubscriberModel, bool) {
    match s.cfg.simulation {
        SimulationMode::Off => if simulated {
            let b = SubscriberModel {
                stats: SubscriberStats {
                    simulation_dropped: bump(s.stats.simulation_dropped),
                    ..s.stats
                },
                ..s
            };
            if s.simulation_reported {
                (b, false)
            } else {
                (
                    emitted(
                        SubscriberModel { simulation_reported: true, ..b },
                        EventModel::IgnoredSimulation,
                    ),
                    false,
                )
            }
        } else {
            (SubscriberModel { simulation_reported: false, ..s }, true)
        },
        SimulationMode::Preferred => if simulated {
            if s.simulation_active {
                (s, true)
            } else {
                (
                    emitted(
                        SubscriberModel { simulation_active: true, ..forgotten(s) },
                        EventModel::SimulationTakeover,
                    ),
                    true,
                )
            }
        } else if s.simulation_active {
            (
                SubscriberModel {
                    stats: SubscriberStats {
                        simulation_dropped: bump(s.stats.simulation_dropped),
                        ..s.stats
                    },
                    ..s
                },
                false,
            )
        } else {
            (s, true)
        },
    }
}

/// What the expected `confRev` makes of a frame, and whether it lets it through.
pub open spec fn conf_rev_policy(s: SubscriberModel, conf_rev: u32) -> (SubscriberModel, bool) {
    match s.conf_rev {
        None => (SubscriberModel { conf_rev: Some(conf_rev), ..s }, true),
        Some(expected) => if expected == conf_rev {
            (SubscriberModel { conf_rev_mismatch_reported: false, ..s }, true)
        } else {
            let b = SubscriberModel {
                stats: SubscriberStats {
                    conf_rev_dropped: bump(s.stats.conf_rev_dropped),
                    ..s.stats
                },
                ..s
            };
            if s.conf_rev_mismatch_reported {
                (b, false)
            } else {
                (
                    emitted(
                        SubscriberModel { conf_rev_mismatch_reported: true, ..b },
                        EventModel::ConfRevMismatch { received: conf_rev, expected },
                    ),
                    false,
                )
            }
        },
    }
}

/// How far from the top of the range a counter may wrap and still be believed.
pub const SEQ_WRAP_WINDOW: u32 = 16;

/// Whether `new` is plausibly `last` after wrapping at the top of the range.
pub open spec fn wrapped(last: u32, new: u32) -> bool {
    last > u32::MAX - SEQ_WRAP_WINDOW && new <= SEQ_WRAP_WINDOW
}

/// What a frame is to a subscriber.
#[derive(Clone, Copy, Debug, PartialEq, Eq, Structural)]
pub enum Verdict {
    /// A new state.
    New,
    /// The current state once more.
    Retransmission,
    /// A frame that repeats or predates the current state.
    Replay,
}

/// The replay rule. While the last accepted state is live, `stNum` has to advance, or to stay
/// while `sqNum` advances; once nothing is live any more, every frame is a new state.
pub open spec fn verdict_of(s: SubscriberModel, st_num: u32, sq_num: u32) -> Verdict {
    match s.state {
        None => Verdict::New,
        Some(last) => if s.expired {
            Verdict::New
        } else if st_num == last.st_num {
            if sq_num > last.sq_num || wrapped(last.sq_num, sq_num) {
                Verdict::Retransmission
            } else {
                Verdict::Replay
            }
        } else if st_num > last.st_num || wrapped(last.st_num, st_num) {
            Verdict::New
        } else {
            Verdict::Replay
        },
    }
}

/// How many states were published between the last accepted one and this one. `stNum` wraps
/// to 1, so there is no state 0. After an expiry nothing is known of what was missed.
pub open spec fn missed_states(s: SubscriberModel, st_num: u32) -> u64 {
    match s.state {
        None => 0,
        Some(last) => if s.expired {
            0
        } else if wrapped(last.st_num, st_num) {
            ((u32::MAX - last.st_num) + (if st_num > 0 {
                st_num - 1
            } else {
                0
            })) as u64
        } else if st_num > last.st_num {
            (st_num - last.st_num - 1) as u64
        } else {
            0
        },
    }
}

/// The sum of two counts, stopping at the end of the range.
pub open spec fn plus(a: u64, b: u64) -> u64 {
    if a + b > u64::MAX {
        u64::MAX
    } else {
        (a + b) as u64
    }
}

/// A new state is counted, with those that were missed before it.
pub open spec fn state_counted(s: SubscriberModel, st_num: u32) -> SubscriberModel {
    let missed = missed_states(s, st_num);
    SubscriberModel {
        stats: SubscriberStats {
            state_gaps: if missed > 0 {
                bump(s.stats.state_gaps)
            } else {
                s.stats.state_gaps
            },
            states_missed: plus(s.stats.states_missed, missed),
            state_changes: bump(s.stats.state_changes),
            ..s.stats
        },
        ..s
    }
}

/// Nanoseconds from one instant to another.
pub open spec fn elapsed(from: Instant, to: Instant) -> u64 {
    if to.nanos >= from.nanos {
        (to.nanos - from.nanos) as u64
    } else {
        0
    }
}

/// How a frame differs from the last accepted one.
pub open spec fn deltas_of(s: SubscriberModel, now: Instant, m: GooseModel) -> Option<FrameDeltas> {
    match s.state {
        None => None,
        Some(last) => Some(
            FrameDeltas {
                st_diff: (m.header.st_num - last.st_num) as i64,
                sq_diff: (m.header.sq_num - last.sq_num) as i64,
                arrival_delta: elapsed(last.arrived_at, now),
                t_delta: (utc_nanos(m.header.t) - utc_nanos(last.t)) as i64,
                since_state_change: match s.state_changed_at {
                    Some(at) => elapsed(at, now),
                    None => 0,
                },
            },
        ),
    }
}

/// A frame is accepted: it is what the next one is compared with. A change of `ndsCom` is
/// counted, and reported when it is set.
pub open spec fn recorded(
    s: SubscriberModel,
    now: Instant,
    m: GooseModel,
    change: bool,
) -> SubscriberModel {
    let h = m.header;
    let b = SubscriberModel {
        stats: SubscriberStats { accepted: bump(s.stats.accepted), ..s.stats },
        deltas: deltas_of(s, now, m),
        state_changed_at: if change {
            Some(now)
        } else {
            s.state_changed_at
        },
        state: Some(
            Accepted {
                st_num: h.st_num,
                sq_num: h.sq_num,
                arrived_at: now,
                t: h.t,
                expires_at: later(now, h.time_allowed_to_live as nat),
            },
        ),
        expired: false,
        ..s
    };
    if h.nds_com == s.nds_com {
        b
    } else {
        let c = SubscriberModel {
            nds_com: h.nds_com,
            stats: SubscriberStats {
                commissioning_changes: bump(b.stats.commissioning_changes),
                ..b.stats
            },
            ..b
        };
        if h.nds_com {
            emitted(c, EventModel::NeedsCommissioning)
        } else {
            c
        }
    }
}

/// A frame that every policy let through is judged.
pub open spec fn judged(s: SubscriberModel, now: Instant, m: GooseModel) -> SubscriberModel {
    let h = m.header;
    match verdict_of(s, h.st_num, h.sq_num) {
        Verdict::Replay => rejected(
            s,
            Invalid::Replay { st_num: h.st_num, sq_num: h.sq_num },
        ),
        Verdict::New => match collected(m.members.children(), s.cfg.limits, 0, Seq::empty()) {
            Err(e) => rejected(s, Invalid::Malformed(e)),
            Ok(values) => recorded(
                emitted(
                    state_counted(s, h.st_num),
                    EventModel::NewState {
                        st_num: h.st_num,
                        t: h.t,
                        values,
                        simulation: h.simulation,
                    },
                ),
                now,
                m,
                true,
            ),
        },
        Verdict::Retransmission => recorded(
            emitted(
                SubscriberModel {
                    stats: SubscriberStats {
                        retransmissions: bump(s.stats.retransmissions),
                        ..s.stats
                    },
                    ..s
                },
                EventModel::Retransmission { st_num: h.st_num, sq_num: h.sq_num },
            ),
            now,
            m,
            false,
        ),
    }
}

/// A PDU of this stream arrived: the policies apply to it, and then the replay rule.
pub open spec fn admitted(s: SubscriberModel, now: Instant, m: GooseModel) -> SubscriberModel {
    let (b, through) = simulation_policy(s, m.header.simulation);
    if !through {
        b
    } else {
        let (c, current) = conf_rev_policy(b, m.header.conf_rev);
        if !current {
            c
        } else {
            judged(c, now, m)
        }
    }
}

/// Whether an address is that of this stream.
pub open spec fn addressed(key: KeyModel, dst: Seq<u8>, ethertype: u16, appid: u16) -> bool {
    ethertype == ETHERTYPE_GOOSE && dst == key.dst && appid == key.appid
}

/// A frame that has the address of this stream arrived.
pub open spec fn on_apdu(s: SubscriberModel, now: Instant, f: FrameModel) -> SubscriberModel {
    match goose_of(f.apdu) {
        Err(e) => rejected(s, Invalid::Malformed(e)),
        Ok(m) => if m.header.gocb_ref != s.cfg.key.gocb_ref {
            ignored(s)
        } else if m.header.simulation != is_simulated(f.reserved1) {
            rejected(s, Invalid::SimulationMismatch)
        } else if !counts_match(m) {
            rejected(s, Invalid::MemberCountMismatch)
        } else {
            admitted(s, now, m)
        },
    }
}

/// A frame arrived. One that does not parse is rejected if what can be read of its address is
/// that of this stream, and is other traffic else.
pub open spec fn after_frame(s: SubscriberModel, now: Instant, frame: Seq<u8>) -> SubscriberModel {
    let c = checked(s, now);
    match frame_of(frame) {
        Err(e) => match address_of(frame) {
            Some(a) => if addressed(s.cfg.key, a.dst, a.ethertype, a.appid) {
                rejected(c, Invalid::Malformed(e))
            } else {
                ignored(c)
            },
            None => ignored(c),
        },
        Ok(f) => if addressed(s.cfg.key, f.dst, f.ethertype, f.appid) {
            on_apdu(c, now, f)
        } else {
            ignored(c)
        },
    }
}

/// An event was handed to the application.
pub open spec fn drained(s: SubscriberModel) -> SubscriberModel {
    SubscriberModel {
        events: popped(s.events),
        stats: SubscriberStats { events_dropped: s.events.dropped, ..s.stats },
        ..s
    }
}

/// When the time of the state that is good runs out.
pub open spec fn runs_out(s: SubscriberModel) -> Option<Instant> {
    match s.state {
        Some(a) => if s.expired {
            None
        } else {
            Some(a.expires_at)
        },
        None => None,
    }
}

/// Every event was handed to the application.
pub open spec fn emptied(s: SubscriberModel) -> SubscriberModel {
    SubscriberModel {
        events: QueueModel { items: Seq::empty(), ..s.events },
        stats: SubscriberStats { events_dropped: s.events.dropped, ..s.stats },
        ..s
    }
}

// ---- the subscriber --------------------------------------------------------------------

/// The GOOSE subscriber.
///
/// Feed it frames and timer ticks, drain [`Subscriber::poll_event`], and call it again by
/// [`Subscriber::next_timeout`].
#[derive(Debug)]
pub struct Subscriber {
    cfg: SubscriberConfig,
    state: Option<Accepted>,
    conf_rev: Option<u32>,
    conf_rev_mismatch_reported: bool,
    nds_com: bool,
    simulation_reported: bool,
    simulation_active: bool,
    expired: bool,
    events: EventQueue<SubscriberEvent>,
    stats: SubscriberStats,
    deltas: Option<FrameDeltas>,
    state_changed_at: Option<Instant>,
}

impl View for Subscriber {
    type V = SubscriberModel;

    closed spec fn view(&self) -> SubscriberModel {
        SubscriberModel {
            cfg: self.cfg@,
            state: self.state,
            conf_rev: self.conf_rev,
            conf_rev_mismatch_reported: self.conf_rev_mismatch_reported,
            nds_com: self.nds_com,
            simulation_reported: self.simulation_reported,
            simulation_active: self.simulation_active,
            expired: self.expired,
            events: self.events@,
            stats: self.stats,
            deltas: self.deltas,
            state_changed_at: self.state_changed_at,
        }
    }
}

fn has_wrapped(last: u32, new: u32) -> (r: bool)
    ensures
        r == wrapped(last, new),
{
    last > u32::MAX - SEQ_WRAP_WINDOW && new <= SEQ_WRAP_WINDOW
}

impl Subscriber {
    /// A subscriber that waits for its first frame.
    pub fn new(cfg: SubscriberConfig) -> (r: Subscriber)
        ensures
            r@ == fresh(cfg@),
    {
        let conf_rev = cfg.expected_conf_rev;
        let events = EventQueue::new(cfg.event_capacity);
        Subscriber {
            cfg,
            state: None,
            conf_rev,
            conf_rev_mismatch_reported: false,
            nds_com: false,
            simulation_reported: false,
            simulation_active: false,
            expired: false,
            events,
            stats: Default::default(),
            deltas: None,
            state_changed_at: None,
        }
    }

    /// The counters.
    pub fn stats(&self) -> (r: SubscriberStats)
        ensures
            r == self@.stats,
    {
        self.stats
    }

    /// The configuration.
    pub fn config(&self) -> (r: &SubscriberConfig)
        ensures
            r@ == self@.cfg,
    {
        &self.cfg
    }

    /// How the last accepted frame differs from the one before it, once there were two.
    pub fn deltas(&self) -> (r: Option<FrameDeltas>)
        ensures
            r == self@.deltas,
    {
        self.deltas
    }

    /// The `stNum` of the current state, if any frame was accepted.
    pub fn st_num(&self) -> (r: Option<u32>)
        ensures
            r == match self@.state {
                Some(a) => Some(a.st_num),
                None => None::<u32>,
            },
    {
        match self.state {
            Some(a) => Some(a.st_num),
            None => None,
        }
    }

    /// The `confRev` of the stream: the expected one, or the first one seen.
    pub fn conf_rev(&self) -> (r: Option<u32>)
        ensures
            r == self@.conf_rev,
    {
        self.conf_rev
    }

    /// Whether the publisher signals `ndsCom`.
    pub fn needs_commissioning(&self) -> (r: bool)
        ensures
            r == self@.nds_com,
    {
        self.nds_com
    }

    /// Whether a frame has been accepted and its `timeAllowedtoLive` has not run out.
    pub fn is_live(&self) -> (r: bool)
        ensures
            r == (self@.state is Some && !self@.expired),
    {
        self.state.is_some() && !self.expired
    }

    /// Whether no frame has arrived within the last `timeAllowedtoLive`.
    pub fn is_expired(&self) -> (r: bool)
        ensures
            r == self@.expired,
    {
        self.expired
    }

    /// Whether a simulated frame has taken over the stream.
    pub fn simulation_active(&self) -> (r: bool)
        ensures
            r == self@.simulation_active,
    {
        self.simulation_active
    }

    fn forget_source(&mut self)
        ensures
            final(self)@ == forgotten(old(self)@),
    {
        self.state = None;
        self.expired = false;
        self.deltas = None;
        self.state_changed_at = None;
        self.nds_com = false;
    }

    /// Go back to the real stream after a test. What is known of the simulated stream is
    /// forgotten with it.
    pub fn reset_simulation(&mut self)
        ensures
            final(self)@ == (SubscriberModel { simulation_active: false, ..forgotten(old(self)@) }),
    {
        self.simulation_active = false;
        self.forget_source();
    }

    /// When the subscriber next needs [`Subscriber::on_timeout`], if ever.
    pub fn next_timeout(&self) -> (r: Option<Instant>)
        ensures
            r == runs_out(self@),
            r == match self@.state {
                Some(a) => if self@.expired {
                    None
                } else {
                    Some(a.expires_at)
                },
                None => None::<Instant>,
            },
    {
        if self.expired {
            return None;
        }
        match self.state {
            Some(a) => Some(a.expires_at),
            None => None,
        }
    }

    /// Take the next event.
    pub fn poll_event(&mut self) -> (r: Option<SubscriberEvent>)
        ensures
            match r {
                Some(e) => old(self)@.events.items.len() > 0 && e@ == old(self)@.events.items[0],
                None => old(self)@.events.items.len() == 0,
            },
            final(self)@ == drained(old(self)@),
    {
        let e = self.events.pop();
        self.stats.events_dropped = self.events.dropped();
        e
    }

    fn emit(&mut self, event: SubscriberEvent)
        ensures
            final(self)@ == emitted(old(self)@, event@),
    {
        self.events.push(event);
        self.stats.events_dropped = self.events.dropped();
    }

    fn other(&mut self)
        ensures
            final(self)@ == ignored(old(self)@),
    {
        self.stats.other_stream = self.stats.other_stream.saturating_add(1);
    }

    fn reject(&mut self, why: Invalid)
        ensures
            final(self)@ == rejected(old(self)@, why),
    {
        match why {
            Invalid::Malformed(_) => {
                self.stats.malformed = self.stats.malformed.saturating_add(1);
            },
            Invalid::SimulationMismatch => {
                self.stats.simulation_mismatches =
                self.stats.simulation_mismatches.saturating_add(1);
            },
            Invalid::MemberCountMismatch => {
                self.stats.member_count_mismatches =
                self.stats.member_count_mismatches.saturating_add(1);
            },
            Invalid::Replay { .. } => {
                self.stats.replays = self.stats.replays.saturating_add(1);
            },
        }
        self.emit(SubscriberEvent::Invalid(why));
    }

    fn check_expiry(&mut self, now: Instant)
        ensures
            final(self)@ == checked(old(self)@, now),
    {
        if let Some(a) = self.state {
            if !self.expired && now.nanos >= a.expires_at.nanos {
                self.expired = true;
                self.stats.expiries = self.stats.expiries.saturating_add(1);
                self.emit(SubscriberEvent::Expired);
            }
        }
    }

    /// Time passed. Marks the subscription stale once `timeAllowedtoLive` elapses.
    pub fn on_timeout(&mut self, now: Instant)
        ensures
            final(self)@ == checked(old(self)@, now),
    {
        self.check_expiry(now);
    }

    fn simulation_policy_admits(&mut self, simulated: bool) -> (r: bool)
        ensures
            (final(self)@, r) == simulation_policy(old(self)@, simulated),
    {
        match self.cfg.simulation {
            SimulationMode::Off => {
                if !simulated {
                    self.simulation_reported = false;
                    return true;
                }
                self.stats.simulation_dropped = self.stats.simulation_dropped.saturating_add(1);
                if !self.simulation_reported {
                    self.simulation_reported = true;
                    self.emit(SubscriberEvent::IgnoredSimulation);
                }
                false
            },
            SimulationMode::Preferred => {
                if simulated {
                    if !self.simulation_active {
                        self.simulation_active = true;
                        self.forget_source();
                        self.emit(SubscriberEvent::SimulationTakeover);
                    }
                    return true;
                }
                if self.simulation_active {
                    self.stats.simulation_dropped =
                    self.stats.simulation_dropped.saturating_add(1);
                    return false;
                }
                true
            },
        }
    }

    fn conf_rev_admits(&mut self, conf_rev: u32) -> (r: bool)
        ensures
            (final(self)@, r) == conf_rev_policy(old(self)@, conf_rev),
    {
        match self.conf_rev {
            Some(expected) => {
                if expected == conf_rev {
                    self.conf_rev_mismatch_reported = false;
                    return true;
                }
                self.stats.conf_rev_dropped = self.stats.conf_rev_dropped.saturating_add(1);
                if !self.conf_rev_mismatch_reported {
                    self.conf_rev_mismatch_reported = true;
                    self.emit(SubscriberEvent::ConfRevMismatch { received: conf_rev, expected });
                }
                false
            },
            None => {
                self.conf_rev = Some(conf_rev);
                true
            },
        }
    }

    fn verdict(&self, pdu: &GoosePduView<'_>) -> (r: Verdict)
        ensures
            r == verdict_of(self@, pdu@.header.st_num, pdu@.header.sq_num),
    {
        let last = match self.state {
            Some(last) => last,
            None => return Verdict::New,
        };
        if self.expired {
            return Verdict::New;
        }
        if pdu.st_num == last.st_num {
            if pdu.sq_num > last.sq_num || has_wrapped(last.sq_num, pdu.sq_num) {
                Verdict::Retransmission
            } else {
                Verdict::Replay
            }
        } else if pdu.st_num > last.st_num || has_wrapped(last.st_num, pdu.st_num) {
            Verdict::New
        } else {
            Verdict::Replay
        }
    }

    fn count_state(&mut self, st_num: u32)
        ensures
            final(self)@ == state_counted(old(self)@, st_num),
    {
        let mut missed: u64 = 0;
        if let Some(last) = self.state {
            if !self.expired {
                if has_wrapped(last.st_num, st_num) {
                    missed = (u32::MAX - last.st_num) as u64 + st_num.saturating_sub(1) as u64;
                } else {
                    missed = st_num.saturating_sub(last.st_num).saturating_sub(1) as u64;
                }
            }
        }
        if missed > 0 {
            self.stats.state_gaps = self.stats.state_gaps.saturating_add(1);
            self.stats.states_missed = self.stats.states_missed.saturating_add(missed);
        }
        self.stats.state_changes = self.stats.state_changes.saturating_add(1);
    }

    fn compare(&self, now: Instant, pdu: &GoosePduView<'_>) -> (r: Option<FrameDeltas>)
        ensures
            r == deltas_of(self@, now, pdu@),
    {
        let last = match self.state {
            Some(last) => last,
            None => return None,
        };
        let here: u64 = pdu.t.to_unix_nanos();
        let there: u64 = last.t.to_unix_nanos();
        proof {
            lemma_nanos_bound(pdu.t);
            lemma_nanos_bound(last.t);
        }
        Some(
            FrameDeltas {
                st_diff: pdu.st_num as i64 - last.st_num as i64,
                sq_diff: pdu.sq_num as i64 - last.sq_num as i64,
                arrival_delta: now.nanos_since(last.arrived_at),
                t_delta: here as i64 - there as i64,
                since_state_change: match self.state_changed_at {
                    Some(at) => now.nanos_since(at),
                    None => 0,
                },
            },
        )
    }

    fn record(&mut self, now: Instant, pdu: &GoosePduView<'_>, change: bool)
        ensures
            final(self)@ == recorded(old(self)@, now, pdu@, change),
    {
        self.stats.accepted = self.stats.accepted.saturating_add(1);
        self.deltas = self.compare(now, pdu);
        if change {
            self.state_changed_at = Some(now);
        }
        self.state = Some(
            Accepted {
                st_num: pdu.st_num,
                sq_num: pdu.sq_num,
                arrived_at: now,
                t: pdu.t,
                expires_at: now.plus_millis(pdu.time_allowed_to_live as u64),
            },
        );
        self.expired = false;
        if pdu.nds_com != self.nds_com {
            self.nds_com = pdu.nds_com;
            self.stats.commissioning_changes = self.stats.commissioning_changes.saturating_add(1);
            if pdu.nds_com {
                self.emit(SubscriberEvent::NeedsCommissioning);
            }
        }
    }

    fn judge(&mut self, now: Instant, pdu: &GoosePduView<'_>)
        ensures
            final(self)@ == judged(old(self)@, now, pdu@),
    {
        match self.verdict(pdu) {
            Verdict::Replay => self.reject(
                Invalid::Replay { st_num: pdu.st_num, sq_num: pdu.sq_num },
            ),
            Verdict::New => {
                let values = match pdu.all_data_owned(&self.cfg.limits) {
                    Ok(v) => v,
                    Err(e) => {
                        self.reject(Invalid::Malformed(e));
                        return;
                    },
                };
                self.count_state(pdu.st_num);
                self.emit(
                    SubscriberEvent::NewState {
                        st_num: pdu.st_num,
                        t: pdu.t,
                        values,
                        simulation: pdu.simulation,
                    },
                );
                self.record(now, pdu, true);
            },
            Verdict::Retransmission => {
                self.stats.retransmissions = self.stats.retransmissions.saturating_add(1);
                self.emit(
                    SubscriberEvent::Retransmission { st_num: pdu.st_num, sq_num: pdu.sq_num },
                );
                self.record(now, pdu, false);
            },
        }
    }

    fn is_ours(&self, dst: &MacAddr, ethertype: u16, appid: u16) -> (r: bool)
        ensures
            r == addressed(self@.cfg.key, dst@, ethertype, appid),
    {
        ethertype == ETHERTYPE_GOOSE && appid == self.cfg.key.appid && same_octets(
            &dst.0,
            &self.cfg.key.dst.0,
        )
    }

    fn on_apdu(&mut self, now: Instant, f: &Frame<'_>)
        ensures
            final(self)@ == on_apdu(old(self)@, now, f@),
    {
        let pdu = match GoosePduView::parse(f.apdu) {
            Ok(p) => p,
            Err(e) => {
                self.reject(Invalid::Malformed(e));
                return;
            },
        };
        if !same_text(pdu.gocb_ref, self.cfg.key.gocb_ref.as_str()) {
            self.other();
            return;
        }
        if pdu.simulation != f.simulation() {
            self.reject(Invalid::SimulationMismatch);
            return;
        }
        if !pdu.member_count_matches() {
            self.reject(Invalid::MemberCountMismatch);
            return;
        }
        if !self.simulation_policy_admits(pdu.simulation) {
            return;
        }
        if !self.conf_rev_admits(pdu.conf_rev) {
            return;
        }
        self.judge(now, &pdu);
    }

    /// Feed one received Ethernet frame.
    ///
    /// Frames of other streams and other protocols are counted and are no errors.
    pub fn on_frame(&mut self, now: Instant, frame: &[u8])
        ensures
            final(self)@ == after_frame(old(self)@, now, frame@),
    {
        self.check_expiry(now);
        let f = match Frame::parse(frame) {
            Ok(f) => f,
            Err(e) => {
                let ours = match FrameAddress::peek(frame) {
                    Some(a) => self.is_ours(&a.dst, a.ethertype, a.appid),
                    None => false,
                };
                if ours {
                    self.reject(Invalid::Malformed(e));
                } else {
                    self.other();
                }
                return;
            },
        };
        if self.is_ours(&f.dst, f.ethertype, f.appid) {
            self.on_apdu(now, &f);
        } else {
            self.other();
        }
    }

    /// Feed a frame and take every event that then waits.
    pub fn feed(&mut self, now: Instant, frame: &[u8]) -> (r: Vec<SubscriberEvent>)
        ensures
            views(r@) == after_frame(old(self)@, now, frame@).events.items,
            final(self)@ == emptied(after_frame(old(self)@, now, frame@)),
    {
        self.on_frame(now, frame);
        let ghost all = self@;
        let mut v: Vec<SubscriberEvent> = Vec::new();
        loop
            invariant_except_break
                views(v@) + self@.events.items == all.events.items,
            invariant
                emptied(self@) == emptied(all),
                all == after_frame(old(self)@, now, frame@),
            ensures
                views(v@) == all.events.items,
                self@ == emptied(all),
            decreases self@.events.items.len(),
        {
            let ghost before = self@;
            let ghost got = views(v@);
            match self.poll_event() {
                Some(e) => {
                    v.push(e);
                    assert(views(v@) =~= got.push(e@));
                    assert(views(v@) + self@.events.items =~= got + before.events.items);
                },
                None => {
                    assert(views(v@) =~= all.events.items);
                    assert(self@.events.items =~= Seq::<EventModel>::empty());
                    break;
                },
            }
        }
        v
    }
}

proof fn lemma_nanos_bound(t: UtcTime)
    ensures
        utc_nanos(t) < 0x7FFF_FFFF_FFFF_FFFF,
{
}

} // verus!
