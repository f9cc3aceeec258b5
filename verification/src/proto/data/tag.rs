//! Tag numbers of the `Data` choice.

use vstd::prelude::*;

verus! {

pub const ARRAY: u32 = 1;
pub const STRUCTURE: u32 = 2;
pub const BOOLEAN: u32 = 3;
pub const BIT_STRING: u32 = 4;
pub const INTEGER: u32 = 5;
pub const UNSIGNED: u32 = 6;
pub const FLOATING_POINT: u32 = 7;
pub const OCTET_STRING: u32 = 9;
pub const VISIBLE_STRING: u32 = 10;
pub const GENERALIZED_TIME: u32 = 11;
pub const BINARY_TIME: u32 = 12;
pub const BCD: u32 = 13;
pub const BOOLEAN_ARRAY: u32 = 14;
pub const OBJ_ID: u32 = 15;
pub const MMS_STRING: u32 = 16;
pub const UTC_TIME: u32 = 17;

} // verus!
