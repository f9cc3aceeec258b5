//! The protocol cores of an IEC 61850 stack: GOOSE, the OSI upper layers, and MMS.
//!
//! Everything here is sans-IO. Octets and the caller's clock go in; octets, events and
//! deadlines come out.

pub mod ber;
pub mod common;
pub mod model;
pub mod proto;
