//! The protocols.

pub mod data;
pub mod ethernet;
pub mod goose;
pub mod mms;
pub mod osi;
