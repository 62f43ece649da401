//! The ASCII bytes that the address grammar names.

use vstd::prelude::*;

verus! {

/// The NUL byte.
pub const NUL: u8 = 0x00;

/// `-`
pub const HYPHEN: u8 = 0x2d;

/// `.`
pub const DOT: u8 = 0x2e;

/// `/`
pub const SLASH: u8 = 0x2f;

/// `0`
pub const DIGIT_0: u8 = 0x30;

/// `9`
pub const DIGIT_9: u8 = 0x39;

/// `:`
pub const COLON: u8 = 0x3a;

/// `@`
pub const AT: u8 = 0x40;

/// `A`
pub const UPPER_A: u8 = 0x41;

/// `F`
pub const UPPER_F: u8 = 0x46;

/// `Z`
pub const UPPER_Z: u8 = 0x5a;

/// `[`
pub const BRACKET_OPEN: u8 = 0x5b;

/// `]`
pub const BRACKET_CLOSE: u8 = 0x5d;

/// `_`
pub const UNDERSCORE: u8 = 0x5f;

/// `a`
pub const LOWER_A: u8 = 0x61;

/// `f`
pub const LOWER_F: u8 = 0x66;

/// `z`
pub const LOWER_Z: u8 = 0x7a;

/// An ASCII digit.
pub open spec fn is_digit(b: u8) -> bool {
    DIGIT_0 <= b <= DIGIT_9
}

/// Whether `b` is an ASCII digit.
pub fn digit(b: u8) -> (r: bool)
    ensures
        r == is_digit(b),
{
    DIGIT_0 <= b && b <= DIGIT_9
}

} // verus!
