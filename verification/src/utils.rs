//! Clamping arithmetic helpers shared by the geometry and panel code.
//!
//! `diff_or_zero` is the "diff-or-zero" rule: a subtraction that returns zero
//! instead of underflowing. `add_sub_or_zero` applies a signed delta to an
//! unsigned value, clamping at zero on the way down.

use vstd::prelude::*;

verus! {

/// Subtraction that floors at zero instead of underflowing.
pub trait DiffOrZero: Sized {
    /// What `diff_or_zero` returns, as a mathematical value.
    spec fn spec_diff_or_zero(self, other: Self) -> Self;

    fn diff_or_zero(&self, other: &Self) -> (r: Self)
        ensures
            r == self.spec_diff_or_zero(*other),
    ;
}

/// Apply a signed offset to an unsigned value, flooring at zero.
pub trait AddSubOrZero: Sized {
    /// True when applying the offset cannot overflow the carrier type.
    spec fn spec_add_sub_ok(self, other: i16) -> bool;

    /// What `add_sub_or_zero` returns, as a mathematical value.
    spec fn spec_add_sub_or_zero(self, other: i16) -> Self;

    fn add_sub_or_zero(&self, other: &i16) -> (r: Self)
        requires
            self.spec_add_sub_ok(*other),
        ensures
            r == self.spec_add_sub_or_zero(*other),
    ;
}

impl DiffOrZero for u16 {
    open spec fn spec_diff_or_zero(self, b: u16) -> u16 {
        if self > b {
            (self - b) as u16
        } else {
            0u16
        }
    }

    fn diff_or_zero(&self, b: &u16) -> u16 {
        if self > b {
            self - b
        } else {
            0
        }
    }
}

impl DiffOrZero for usize {
    open spec fn spec_diff_or_zero(self, b: usize) -> usize {
        if self > b {
            (self - b) as usize
        } else {
            0usize
        }
    }

    fn diff_or_zero(&self, b: &usize) -> usize {
        if self > b {
            self - b
        } else {
            0
        }
    }
}

impl AddSubOrZero for u16 {
    open spec fn spec_add_sub_ok(self, other: i16) -> bool {
        other >= 0 ==> self + other <= u16::MAX
    }

    open spec fn spec_add_sub_or_zero(self, other: i16) -> u16 {
        if other < 0 {
            self.spec_diff_or_zero((-(other as int)) as u16)
        } else {
            (self + other) as u16
        }
    }

    fn add_sub_or_zero(&self, other: &i16) -> u16 {
        if *other < 0 {
            let magnitude: u16 = (-(*other as i32)) as u16;
            self.diff_or_zero(&magnitude)
        } else {
            self + (*other as u16)
        }
    }
}

impl AddSubOrZero for usize {
    open spec fn spec_add_sub_ok(self, other: i16) -> bool {
        other >= 0 ==> self + other <= usize::MAX
    }

    open spec fn spec_add_sub_or_zero(self, other: i16) -> usize {
        if other < 0 {
            self.spec_diff_or_zero((-(other as int)) as usize)
        } else {
            (self + other) as usize
        }
    }

    fn add_sub_or_zero(&self, other: &i16) -> usize {
        if *other < 0 {
            let magnitude: usize = (-(*other as i32)) as usize;
            self.diff_or_zero(&magnitude)
        } else {
            self + (*other as usize)
        }
    }
}

} // verus!
