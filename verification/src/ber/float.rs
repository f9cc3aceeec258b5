//! When two IEEE 754 numbers are equal, told from their bits.

use vstd::prelude::*;
use crate::ber::Float;

verus! {

/// Whether single-precision bits are no number: every exponent bit is set, and one below them.
pub open spec fn is_nan32(bits: u32) -> bool {
    bits % 0x8000_0000 > 0x7F80_0000
}

/// Whether double-precision bits are no number.
pub open spec fn is_nan64(bits: u64) -> bool {
    bits % 0x8000_0000_0000_0000 > 0x7FF0_0000_0000_0000
}

/// Whether two single-precision numbers are equal. What is no number equals nothing, and the two
/// zeros equal each other.
pub open spec fn equal32(a: u32, b: u32) -> bool {
    !is_nan32(a) && !is_nan32(b) && (a == b || (a % 0x8000_0000 == 0 && b % 0x8000_0000 == 0))
}

/// Whether two double-precision numbers are equal.
pub open spec fn equal64(a: u64, b: u64) -> bool {
    !is_nan64(a) && !is_nan64(b) && (a == b || (a % 0x8000_0000_0000_0000 == 0 && b
        % 0x8000_0000_0000_0000 == 0))
}

/// Whether two single-precision numbers are equal.
pub fn same32(a: u32, b: u32) -> (r: bool)
    ensures
        r == equal32(a, b),
{
    let x: u32 = a % 0x8000_0000;
    let y: u32 = b % 0x8000_0000;
    x <= 0x7F80_0000 && y <= 0x7F80_0000 && (a == b || (x == 0 && y == 0))
}

/// Whether two double-precision numbers are equal.
pub fn same64(a: u64, b: u64) -> (r: bool)
    ensures
        r == equal64(a, b),
{
    let x: u64 = a % 0x8000_0000_0000_0000;
    let y: u64 = b % 0x8000_0000_0000_0000;
    x <= 0x7FF0_0000_0000_0000 && y <= 0x7FF0_0000_0000_0000 && (a == b || (x == 0 && y == 0))
}

impl PartialEq for Float {
    /// Two numbers of one width are equal as numbers are.
    fn eq(&self, other: &Float) -> (r: bool) {
        match (self, other) {
            (Float::Single(a), Float::Single(b)) => same32(*a, *b),
            (Float::Double(a), Float::Double(b)) => same64(*a, *b),
            _ => false,
        }
    }
}

impl vstd::std_specs::cmp::PartialEqSpecImpl for Float {
    open spec fn obeys_eq_spec() -> bool {
        true
    }

    open spec fn eq_spec(&self, other: &Float) -> bool {
        match (*self, *other) {
            (Float::Single(a), Float::Single(b)) => equal32(a, b),
            (Float::Double(a), Float::Double(b)) => equal64(a, b),
            _ => false,
        }
    }
}

} // verus!
