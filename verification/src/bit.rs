//! A two-valued unit: high or low.

use vstd::prelude::*;

verus! {

/// One bit of the decision tape. Its view is `true` for high.
#[derive(Debug, Clone, Copy, PartialEq, Eq, Structural)]
pub struct Bit(bool);

impl View for Bit {
    type V = bool;

    closed spec fn view(&self) -> bool {
        self.0
    }
}

impl Bit {
    pub fn high() -> (bit: Bit)
        ensures
            bit@,
    {
        Bit(true)
    }

    pub fn low() -> (bit: Bit)
        ensures
            !bit@,
    {
        Bit(false)
    }

    /// Low for zero, high for every other value.
    pub fn from_u8(n: u8) -> (bit: Bit)
        ensures
            bit@ == (n != 0),
    {
        match n {
            0 => Bit::low(),
            _ => Bit::high(),
        }
    }

    pub fn as_bool(&self) -> (b: bool)
        ensures
            b == self@,
    {
        self.0
    }

    /// Two bits with the same value are the same bit.
    pub proof fn lemma_view_injective(a: Bit, b: Bit)
        ensures
            a@ == b@ <==> a == b,
    {
    }
}

} // verus!
