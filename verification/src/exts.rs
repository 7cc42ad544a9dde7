//! Small character classification helpers shared by the lexical rules.

use vstd::prelude::*;

verus! {

/// Classifies characters (or bytes read as characters) as non-zero
/// decimal digits, the first character a number without leading zeros
/// may start with.
pub trait AsCharExt: Sized {
    /// Whether the value reads as a digit of `1..=9`.
    spec fn spec_is_nonzero_dec_digit(self) -> bool;

    /// Tests that `self` is in `1..=9`.
    fn is_nonzero_dec_digit(self) -> (r: bool)
        ensures
            r == self.spec_is_nonzero_dec_digit(),
    ;
}

impl AsCharExt for char {
    open spec fn spec_is_nonzero_dec_digit(self) -> bool {
        49 <= (self as u32) && (self as u32) <= 57
    }

    fn is_nonzero_dec_digit(self) -> (r: bool) {
        let u = self as u32;
        49 <= u && u <= 57
    }
}

impl AsCharExt for u8 {
    open spec fn spec_is_nonzero_dec_digit(self) -> bool {
        49 <= self && self <= 57
    }

    fn is_nonzero_dec_digit(self) -> (r: bool) {
        49 <= self && self <= 57
    }
}

} // verus!
