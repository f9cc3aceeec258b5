//! `vmdPhysicalStatus` of a `Status` response.

use vstd::prelude::*;

verus! {

/// The device is working.
pub const OPERATIONAL: i64 = 0;
/// Some of it is.
pub const PARTIALLY_OPERATIONAL: i64 = 1;
/// None of it is.
pub const INOPERABLE: i64 = 2;
/// It has not been commissioned.
pub const NEEDS_COMMISSIONING: i64 = 3;

} // verus!
