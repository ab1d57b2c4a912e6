//! The three-valued condition code.

use crate::cpu::Word;
use vstd::prelude::*;

verus! {

/// Negative, Zero, and Positive.
#[derive(Clone, Copy, Debug, PartialEq, Eq, Structural)]
pub enum ConditionCode {
    N,
    Z,
    P,
}

impl ConditionCode {
    /// The flag bit of each code: `N` is `0b100`, `Z` is `0b010`, `P` is `0b001`.
    pub open spec fn spec_bit(self) -> int {
        match self {
            ConditionCode::N => 4,
            ConditionCode::Z => 2,
            ConditionCode::P => 1,
        }
    }

    /// The code that a value sets: its sign.
    pub open spec fn spec_from_value(val: int) -> ConditionCode {
        if val < 0 {
            ConditionCode::N
        } else if val == 0 {
            ConditionCode::Z
        } else {
            ConditionCode::P
        }
    }

    /// The flag bit of the code.
    pub fn bit(&self) -> (flag: i32)
        ensures
            flag == self.spec_bit(),
    {
        match *self {
            ConditionCode::N => 4,
            ConditionCode::Z => 2,
            ConditionCode::P => 1,
        }
    }

    /// The code that `val` sets: `N` for a negative value, `Z` for zero, `P`
    /// for a positive one.
    pub fn from_value(val: Word) -> (cc: ConditionCode)
        ensures
            cc == Self::spec_from_value(val as int),
            cc == ConditionCode::N <==> val < 0,
            cc == ConditionCode::Z <==> val == 0,
            cc == ConditionCode::P <==> val > 0,
    {
        if val < 0 {
            ConditionCode::N
        } else if val == 0 {
            ConditionCode::Z
        } else {
            ConditionCode::P
        }
    }
}

} // verus!
