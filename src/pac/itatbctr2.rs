//! ETM Integration Test ATB Control Register 2: its reader.
use vstd::prelude::*;

verus! {

/// Value of `ITATBCTR2` after reset.
pub const RESET_VALUE: u32 = 0;

/// Marker of the `ITATBCTR2` register: read-only, 32 bits wide.
#[allow(non_camel_case_types)]
pub struct ITATBCTR2_SPEC;

/// Reader of the `ITATBCTR2` register: the value that a read returned.
pub struct R {
    bits: u32,
}

impl R {
    /// Value that the read returned.
    pub closed spec fn bits_view(&self) -> u32 {
        self.bits
    }

    /// The reader of a read that returned `bits`.
    pub fn from_bits(bits: u32) -> (r: R)
        ensures
            r.bits_view() == bits,
    {
        R { bits }
    }

    /// The reader of a read right after reset.
    pub fn reset() -> (r: R)
        ensures
            r.bits_view() == RESET_VALUE,
    {
        R { bits: RESET_VALUE }
    }

    /// Raw value of the register.
    pub fn bits(&self) -> (r: u32)
        ensures
            r == self.bits_view(),
    {
        self.bits
    }
}

} // verus!
