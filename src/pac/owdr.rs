//! Output Write Disable register of a PIO controller: its writer.
use vstd::prelude::*;

verus! {

/// Value of `OWDR` after reset.
pub const RESET_VALUE: u32 = 0;

/// Marker of the `OWDR` register: write-only, 32 bits wide.
#[allow(non_camel_case_types)]
pub struct OWDR_SPEC;

/// Writer of the `OWDR` register: the value that a write puts in it.
pub struct W {
    bits: u32,
}

/// Writer of one bit of `OWDR`.
pub struct BitWriter<'a> {
    /// The register writer.
    pub w: &'a mut W,
    /// Position of the bit.
    pub offset: u32,
}

/// `bits` with bit `offset` set to `value`.
pub open spec fn with_bit(bits: u32, offset: u32, value: bool) -> u32
    recommends
        offset < 32,
{
    if value {
        bits | (1u32 << offset)
    } else {
        bits & !(1u32 << offset)
    }
}

impl<'a> BitWriter<'a> {
    /// Sets the bit to `value` and hands the register writer back.
    pub fn bit(self, value: bool) -> (r: &'a mut W)
        requires
            self.offset < 32,
        ensures
            r.bits_view() == with_bit(old(self.w).bits_view(), self.offset, value),
            *final(self.w) == *final(r),
    {
        let mask: u32 = 1u32 << self.offset;
        if value {
            self.w.bits = self.w.bits | mask;
        } else {
            self.w.bits = self.w.bits & !mask;
        }
        self.w
    }

    /// Sets the bit.
    pub fn set_bit(self) -> (r: &'a mut W)
        requires
            self.offset < 32,
        ensures
            r.bits_view() == with_bit(old(self.w).bits_view(), self.offset, true),
            *final(self.w) == *final(r),
    {
        self.bit(true)
    }

    /// Clears the bit.
    pub fn clear_bit(self) -> (r: &'a mut W)
        requires
            self.offset < 32,
        ensures
            r.bits_view() == with_bit(old(self.w).bits_view(), self.offset, false),
            *final(self.w) == *final(r),
    {
        self.bit(false)
    }
}

impl W {
    /// Value that the write puts in the register.
    pub closed spec fn bits_view(&self) -> u32 {
        self.bits
    }

    /// A writer that starts from the register's reset value.
    pub fn new() -> (r: W)
        ensures
            r.bits_view() == RESET_VALUE,
    {
        W { bits: RESET_VALUE }
    }

    /// Value that the write puts in the register.
    pub fn get_bits(&self) -> (r: u32)
        ensures
            r == self.bits_view(),
    {
        self.bits
    }

    /// Bit 0 - Output Write Disable.
    pub fn p0(&mut self) -> (r: BitWriter<'_>)
        ensures
            r.offset == 0,
            *r.w == *old(self),
            *final(self) == *final(r.w),
    {
        BitWriter { w: self, offset: 0 }
    }

    /// Bit 1 - Output Write Disable.
    pub fn p1(&mut self) -> (r: BitWriter<'_>)
        ensures
            r.offset == 1,
            *r.w == *old(self),
            *final(self) == *final(r.w),
    {
        BitWriter { w: self, offset: 1 }
    }

    /// Bit 2 - Output Write Disable.
    pub fn p2(&mut self) -> (r: BitWriter<'_>)
        ensures
            r.offset == 2,
            *r.w == *old(self),
            *final(self) == *final(r.w),
    {
        BitWriter { w: self, offset: 2 }
    }

    /// Bit 3 - Output Write Disable.
    pub fn p3(&mut self) -> (r: BitWriter<'_>)
        ensures
            r.offset == 3,
            *r.w == *old(self),
            *final(self) == *final(r.w),
    {
        BitWriter { w: self, offset: 3 }
    }

    /// Bit 4 - Output Write Disable.
    pub fn p4(&mut self) -> (r: BitWriter<'_>)
        ensures
            r.offset == 4,
            *r.w == *old(self),
            *final(self) == *final(r.w),
    {
        BitWriter { w: self, offset: 4 }
    }

    /// Bit 5 - Output Write Disable.
    pub fn p5(&mut self) -> (r: BitWriter<'_>)
        ensures
            r.offset == 5,
            *r.w == *old(self),
            *final(self) == *final(r.w),
    {
        BitWriter { w: self, offset: 5 }
    }

    /// Bit 6 - Output Write Disable.
    pub fn p6(&mut self) -> (r: BitWriter<'_>)
        ensures
            r.offset == 6,
            *r.w == *old(self),
            *final(self) == *final(r.w),
    {
        BitWriter { w: self, offset: 6 }
    }

    /// Bit 7 - Output Write Disable.
    pub fn p7(&mut self) -> (r: BitWriter<'_>)
        ensures
            r.offset == 7,
            *r.w == *old(self),
            *final(self) == *final(r.w),
    {
        BitWriter { w: self, offset: 7 }
    }

    /// Bit 8 - Output Write Disable.
    pub fn p8(&mut self) -> (r: BitWriter<'_>)
        ensures
            r.offset == 8,
            *r.w == *old(self),
            *final(self) == *final(r.w),
    {
        BitWriter { w: self, offset: 8 }
    }

    /// Bit 9 - Output Write Disable.
    pub fn p9(&mut self) -> (r: BitWriter<'_>)
        ensures
            r.offset == 9,
            *r.w == *old(self),
            *final(self) == *final(r.w),
    {
        BitWriter { w: self, offset: 9 }
    }

    /// Bit 10 - Output Write Disable.
    pub fn p10(&mut self) -> (r: BitWriter<'_>)
        ensures
            r.offset == 10,
            *r.w == *old(self),
            *final(self) == *final(r.w),
    {
        BitWriter { w: self, offset: 10 }
    }

    /// Bit 11 - Output Write Disable.
    pub fn p11(&mut self) -> (r: BitWriter<'_>)
        ensures
            r.offset == 11,
            *r.w == *old(self),
            *final(self) == *final(r.w),
    {
        BitWriter { w: self, offset: 11 }
    }

    /// Bit 12 - Output Write Disable.
    pub fn p12(&mut self) -> (r: BitWriter<'_>)
        ensures
            r.offset == 12,
            *r.w == *old(self),
            *final(self) == *final(r.w),
    {
        BitWriter { w: self, offset: 12 }
    }

    /// Bit 13 - Output Write Disable.
    pub fn p13(&mut self) -> (r: BitWriter<'_>)
        ensures
            r.offset == 13,
            *r.w == *old(self),
            *final(self) == *final(r.w),
    {
        BitWriter { w: self, offset: 13 }
    }

    /// Bit 14 - Output Write Disable.
    pub fn p14(&mut self) -> (r: BitWriter<'_>)
        ensures
            r.offset == 14,
            *r.w == *old(self),
            *final(self) == *final(r.w),
    {
        BitWriter { w: self, offset: 14 }
    }

    /// Bit 15 - Output Write Disable.
    pub fn p15(&mut self) -> (r: BitWriter<'_>)
        ensures
            r.offset == 15,
            *r.w == *old(self),
            *final(self) == *final(r.w),
    {
        BitWriter { w: self, offset: 15 }
    }

    /// Bit 16 - Output Write Disable.
    pub fn p16(&mut self) -> (r: BitWriter<'_>)
        ensures
            r.offset == 16,
            *r.w == *old(self),
            *final(self) == *final(r.w),
    {
        BitWriter { w: self, offset: 16 }
    }

    /// Bit 17 - Output Write Disable.
    pub fn p17(&mut self) -> (r: BitWriter<'_>)
        ensures
            r.offset == 17,
            *r.w == *old(self),
            *final(self) == *final(r.w),
    {
        BitWriter { w: self, offset: 17 }
    }

    /// Bit 18 - Output Write Disable.
    pub fn p18(&mut self) -> (r: BitWriter<'_>)
        ensures
            r.offset == 18,
            *r.w == *old(self),
            *final(self) == *final(r.w),
    {
        BitWriter { w: self, offset: 18 }
    }

    /// Bit 19 - Output Write Disable.
    pub fn p19(&mut self) -> (r: BitWriter<'_>)
        ensures
            r.offset == 19,
            *r.w == *old(self),
            *final(self) == *final(r.w),
    {
        BitWriter { w: self, offset: 19 }
    }

    /// Bit 20 - Output Write Disable.
    pub fn p20(&mut self) -> (r: BitWriter<'_>)
        ensures
            r.offset == 20,
            *r.w == *old(self),
            *final(self) == *final(r.w),
    {
        BitWriter { w: self, offset: 20 }
    }

    /// Bit 21 - Output Write Disable.
    pub fn p21(&mut self) -> (r: BitWriter<'_>)
        ensures
            r.offset == 21,
            *r.w == *old(self),
            *final(self) == *final(r.w),
    {
        BitWriter { w: self, offset: 21 }
    }

    /// Bit 22 - Output Write Disable.
    pub fn p22(&mut self) -> (r: BitWriter<'_>)
        ensures
            r.offset == 22,
            *r.w == *old(self),
            *final(self) == *final(r.w),
    {
        BitWriter { w: self, offset: 22 }
    }

    /// Bit 23 - Output Write Disable.
    pub fn p23(&mut self) -> (r: BitWriter<'_>)
        ensures
            r.offset == 23,
            *r.w == *old(self),
            *final(self) == *final(r.w),
    {
        BitWriter { w: self, offset: 23 }
    }

    /// Bit 24 - Output Write Disable.
    pub fn p24(&mut self) -> (r: BitWriter<'_>)
        ensures
            r.offset == 24,
            *r.w == *old(self),
            *final(self) == *final(r.w),
    {
        BitWriter { w: self, offset: 24 }
    }

    /// Bit 25 - Output Write Disable.
    pub fn p25(&mut self) -> (r: BitWriter<'_>)
        ensures
            r.offset == 25,
            *r.w == *old(self),
            *final(self) == *final(r.w),
    {
        BitWriter { w: self, offset: 25 }
    }

    /// Bit 26 - Output Write Disable.
    pub fn p26(&mut self) -> (r: BitWriter<'_>)
        ensures
            r.offset == 26,
            *r.w == *old(self),
            *final(self) == *final(r.w),
    {
        BitWriter { w: self, offset: 26 }
    }

    /// Bit 27 - Output Write Disable.
    pub fn p27(&mut self) -> (r: BitWriter<'_>)
        ensures
            r.offset == 27,
            *r.w == *old(self),
            *final(self) == *final(r.w),
    {
        BitWriter { w: self, offset: 27 }
    }

    /// Bit 28 - Output Write Disable.
    pub fn p28(&mut self) -> (r: BitWriter<'_>)
        ensures
            r.offset == 28,
            *r.w == *old(self),
            *final(self) == *final(r.w),
    {
        BitWriter { w: self, offset: 28 }
    }

    /// Bit 29 - Output Write Disable.
    pub fn p29(&mut self) -> (r: BitWriter<'_>)
        ensures
            r.offset == 29,
            *r.w == *old(self),
            *final(self) == *final(r.w),
    {
        BitWriter { w: self, offset: 29 }
    }

    /// Bit 30 - Output Write Disable.
    pub fn p30(&mut self) -> (r: BitWriter<'_>)
        ensures
            r.offset == 30,
            *r.w == *old(self),
            *final(self) == *final(r.w),
    {
        BitWriter { w: self, offset: 30 }
    }

    /// Bit 31 - Output Write Disable.
    pub fn p31(&mut self) -> (r: BitWriter<'_>)
        ensures
            r.offset == 31,
            *r.w == *old(self),
            *final(self) == *final(r.w),
    {
        BitWriter { w: self, offset: 31 }
    }

    /// Writes raw bits to the register.
    pub fn bits(&mut self, bits: u32) -> (r: &mut W)
        ensures
            r.bits_view() == bits,
            *final(self) == *final(r),
    {
        self.bits = bits;
        self
    }
}

} // verus!
