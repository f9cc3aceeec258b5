//! The `scopeOfDelete` values that `DeleteNamedVariableList` takes.

use vstd::prelude::*;

verus! {

/// Delete exactly the named lists.
pub const SPECIFIC: i64 = 0;
/// Delete every list private to this association.
pub const AA_SPECIFIC: i64 = 1;
/// Delete every list in one domain.
pub const DOMAIN: i64 = 2;
/// Delete every list in the VMD.
pub const VMD: i64 = 3;

} // verus!
