//! Samples and bit enumeration.
//!
//! A sample is an unsigned pixel value of a declared width of exactly 8 or
//! 16 bits, represented as a closed tagged union rather than an open numeric
//! abstraction. A `BitEnumerator` walks a sample's bits once, in ascending
//! bit-index order, index 0 being the least-significant bit.

use vstd::prelude::*;

verus! {

/// One decoded pixel (or sub-pixel) sample, tagged with its bit width.
#[derive(Clone, Copy, PartialEq, Eq, Structural, Debug)]
pub enum Sample {
    U8(u8),
    U16(u16),
}

impl Sample {
    /// The sample's numeric value, widened to 16 bits.
    pub open spec fn spec_val(self) -> u16 {
        match self {
            Sample::U8(v) => v as u16,
            Sample::U16(v) => v,
        }
    }

    /// The declared bit width: 8 or 16.
    pub open spec fn spec_width(self) -> nat {
        match self {
            Sample::U8(_) => 8,
            Sample::U16(_) => 16,
        }
    }

    /// Bit `i` of the sample, counted from the least-significant bit.
    pub open spec fn bit(self, i: nat) -> bool {
        (self.spec_val() >> (i as u16)) & 1 == 1
    }

    /// The declared bit width, as an executable value.
    pub fn width(&self) -> (w: u32)
        ensures
            w == self.spec_width(),
    {
        match self {
            Sample::U8(_) => 8,
            Sample::U16(_) => 16,
        }
    }

    /// Begin a single pass over this sample's bits, least-significant first.
    pub fn enumerate_bits(&self) -> (e: BitEnumerator)
        ensures
            e.wf(),
            e.sample() == *self,
            e.curr == 0,
    {
        let val: u16 = match self {
            Sample::U8(v) => *v as u16,
            Sample::U16(v) => *v,
        };
        let n_bits: u32 = self.width();
        proof {
            let v = self.spec_val();
            assert(v >> 0u16 == v) by (bit_vector);
        }
        BitEnumerator { val, curr: 0, n_bits, sample: Ghost(*self) }
    }
}

/// A finite, single-pass, non-restartable walk over one sample's bit
/// observations: pairs `(bit_index, bit_value)` with indices ascending from
/// 0 (the least-significant bit) to the sample's width minus one.
pub struct BitEnumerator {
    /// The sample's value, shifted right by the bits already yielded.
    pub val: u16,
    /// The next bit index to yield.
    pub curr: u32,
    /// The sample's declared width.
    pub n_bits: u32,
    /// The sample the walk was started from.
    pub sample: Ghost<Sample>,
}

impl BitEnumerator {
    /// The sample this enumerator walks.
    pub open spec fn sample(self) -> Sample {
        self.sample@
    }

    /// Internal consistency: the enumerator stands `curr` bits into its
    /// sample, and `val` holds the bits not yet yielded.
    pub open spec fn wf(self) -> bool {
        &&& self.n_bits == self.sample@.spec_width()
        &&& self.curr <= self.n_bits
        &&& self.val == self.sample@.spec_val() >> (self.curr as u16)
    }

    /// Yield the next bit observation, or `None` once all of the sample's
    /// bits have been yielded.
    pub fn next(&mut self) -> (r: Option<(u32, bool)>)
        requires
            old(self).wf(),
        ensures
            final(self).wf(),
            final(self).sample@ == old(self).sample@,
            old(self).curr < old(self).sample@.spec_width() ==> {
                &&& r == Some((old(self).curr, old(self).sample@.bit(old(self).curr as nat)))
                &&& final(self).curr == old(self).curr + 1
            },
            old(self).curr >= old(self).sample@.spec_width() ==> {
                &&& r is None
                &&& *final(self) == *old(self)
            },
    {
        if self.curr >= self.n_bits {
            None
        } else {
            let b = self.val & 1 == 1;
            let res = (self.curr, b);
            proof {
                let v = self.sample@.spec_val();
                let c = self.curr as u16;
                assert((v >> c) >> 1u16 == v >> (c + 1) as u16) by (bit_vector)
                    requires
                        c < 16,
                ;
            }
            self.val = self.val >> 1u16;
            self.curr = self.curr + 1;
            Some(res)
        }
    }
}

} // verus!
