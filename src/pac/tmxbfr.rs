//! GMAC 1519 to Maximum Byte Frames Received Register: its reader.
use vstd::prelude::*;

verus! {

/// Value of `TMXBFR` after reset.
pub const RESET_VALUE: u32 = 0;

/// Marker of the `TMXBFR` register: read-only, 32 bits wide.
#[allow(non_camel_case_types)]
pub struct TMXBFR_SPEC;

/// Reader of the `TMXBFR` register: the value that a read returned.
pub struct R {
    bits: u32,
}

impl R {
    /// Value that the read returned.
    pub closed spec fn bits_view(&self) -> u32 {
        self.bits
    }

    /// The reader of a read that returned `bits`.
    pub fn from_bits(bits: u32) -> (r: R)
        ensures
            r.bits_view() == bits,
    {
        R { bits }
    }

    /// Raw value of the register.
    pub fn bits(&self) -> (r: u32)
        ensures
            r == self.bits_view(),
    {
        self.bits
    }

    /// Bits 0:31 - frames of 1519 bytes up to the maximum received without error.
    pub fn nfrx(&self) -> (r: u32)
        ensures
            r == self.bits_view(),
    {
        self.bits
    }
}

} // verus!
