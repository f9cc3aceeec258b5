//! The object classes that `GetNameList` is asked for.

use vstd::prelude::*;

verus! {

/// A named variable: a logical node, a data object or a data attribute.
pub const NAMED_VARIABLE: i64 = 0;
/// A scattered access.
pub const SCATTERED_ACCESS: i64 = 1;
/// A named variable list: a data set.
pub const NAMED_VARIABLE_LIST: i64 = 2;
/// A named type.
pub const NAMED_TYPE: i64 = 3;
/// A journal: a log.
pub const JOURNAL: i64 = 8;
/// A domain: a logical device.
pub const DOMAIN: i64 = 9;

} // verus!
