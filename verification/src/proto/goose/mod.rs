//! GOOSE (IEC 61850-8-1): the APDU codec, the publisher with its retransmission scheduler, and
//! the subscriber with its replay protection.

pub mod apdu;
pub mod laws;
pub mod publisher;
pub mod reception;
pub mod schedule;
pub mod subscriber;
pub mod wire;

pub use apdu::{encode_into, tag_goose_pdu, GooseHeader, GoosePdu, GoosePduView};
pub use publisher::{Publisher, PublisherConfig, Retransmission};
pub use subscriber::{
    FrameDeltas, Invalid, SimulationMode, Subscriber, SubscriberConfig, SubscriberEvent,
    SubscriberStats, SubscriptionKey,
};
