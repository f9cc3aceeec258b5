//! The OSI upper layers under MMS.
//!
//! ACSE for the association, presentation for the context list, session for the connect
//! handshake, COTP class 0 for the data unit, and TPKT to frame all of that over TCP. Each
//! layer is a codec: no sockets and no clocks.

pub mod acse;
pub mod cotp;
pub mod oid;
pub mod presentation;
pub mod session;
pub mod tpkt;
pub mod readings;
pub mod wire;

pub use self::oid::Oid;
