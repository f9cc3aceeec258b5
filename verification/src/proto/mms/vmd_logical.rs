//! `vmdLogicalStatus` of a `Status` response.

use vstd::prelude::*;

verus! {

/// The VMD accepts requests that change its state.
pub const STATE_CHANGES_ALLOWED: i64 = 0;
/// It does not.
pub const NO_STATE_CHANGES_ALLOWED: i64 = 1;
/// Only some services are available.
pub const LIMITED_SERVICES_ALLOWED: i64 = 2;
/// Only support services are available.
pub const SUPPORT_SERVICES_ALLOWED: i64 = 3;

} // verus!
