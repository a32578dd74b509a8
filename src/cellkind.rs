//! What a tape cell must offer: wrapping steps up and down, and conversion
//! from and to a byte for input and output.

use vstd::prelude::*;

verus! {

/// A value that a tape cell can hold.
pub trait CellKind: Sized {
    /// The value one up, wrapping past the largest value to the smallest.
    spec fn spec_increment(self) -> Self;

    /// The value one down, wrapping past the smallest value to the largest.
    spec fn spec_decrement(self) -> Self;

    /// The value that an input byte becomes.
    spec fn spec_from_u8(value: u8) -> Self;

    /// The byte that this value is written out as.
    spec fn spec_to_u8(self) -> u8;

    /// Wrapping increment.
    fn increment(&self) -> (r: Self)
        ensures
            r == self.spec_increment(),
    ;

    /// Wrapping decrement.
    fn decrement(&self) -> (r: Self)
        ensures
            r == self.spec_decrement(),
    ;

    /// Converts from a byte, for input.
    fn from_u8(value: u8) -> (r: Self)
        ensures
            r == Self::spec_from_u8(value),
    ;

    /// Converts to a byte, for output.
    fn to_u8(&self) -> (r: u8)
        ensures
            r == self.spec_to_u8(),
    ;

    /// Whether this is the zero value, the one that a fresh cell holds.
    fn is_zero(&self) -> (r: bool)
        ensures
            r == (*self == Self::spec_from_u8(0)),
    ;
}

impl CellKind for u8 {
    open spec fn spec_increment(self) -> u8 {
        if self == 255 {
            0
        } else {
            (self + 1) as u8
        }
    }

    open spec fn spec_decrement(self) -> u8 {
        if self == 0 {
            255
        } else {
            (self - 1) as u8
        }
    }

    open spec fn spec_from_u8(value: u8) -> u8 {
        value
    }

    open spec fn spec_to_u8(self) -> u8 {
        self
    }

    fn increment(&self) -> (r: u8) {
        self.wrapping_add(1)
    }

    fn decrement(&self) -> (r: u8) {
        self.wrapping_sub(1)
    }

    fn from_u8(value: u8) -> (r: u8) {
        value
    }

    fn to_u8(&self) -> (r: u8) {
        *self
    }

    fn is_zero(&self) -> (r: bool) {
        *self == 0
    }
}

} // verus!
