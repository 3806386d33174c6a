//! Single-precision numbers by their bit patterns.
//!
//! The library compares and classifies such numbers but never computes with
//! them; arithmetic on them is left to the device.

use vstd::arithmetic::power2::{
    lemma2_to64, lemma_pow2_adds, lemma_pow2_pos, lemma_pow2_strictly_increases, pow2,
};
use vstd::prelude::*;

verus! {

/// An IEEE 754 single-precision number, held as its bit pattern.
#[derive(Clone, Copy, Debug, PartialEq, Eq, Structural)]
pub struct Single {
    pub bits: u32,
}

/// The bit pattern of one.
pub const ONE: u32 = 0x3f80_0000;

/// The bit pattern of zero.
pub const ZERO: u32 = 0;

impl Single {
    /// The sign bit: set for negative numbers and negative zero.
    pub open spec fn sign(self) -> bool {
        self.bits >= 0x8000_0000
    }

    /// The eight exponent bits.
    pub open spec fn exponent(self) -> int {
        (self.bits as int / 0x80_0000) % 0x100
    }

    /// The twenty-three fraction bits.
    pub open spec fn fraction(self) -> int {
        self.bits as int % 0x80_0000
    }

    /// Neither infinite nor not a number: those have all exponent bits set.
    pub open spec fn finite(self) -> bool {
        self.exponent() != 0xff
    }

    /// Not a number: all exponent bits and some fraction bit set.
    pub open spec fn not_a_number(self) -> bool {
        self.exponent() == 0xff && self.fraction() != 0
    }

    /// Positive or negative zero.
    pub open spec fn zero(self) -> bool {
        self.exponent() == 0 && self.fraction() == 0
    }

    /// Greater than zero.
    pub open spec fn positive(self) -> bool {
        !self.sign() && !self.zero() && !self.not_a_number()
    }

    /// Exactly one: the exponent bias, and no fraction.
    pub open spec fn one(self) -> bool {
        !self.sign() && self.exponent() == 127 && self.fraction() == 0
    }

    /// One or less. Magnitudes are ordered by exponent, then by fraction.
    pub open spec fn at_most_one(self) -> bool {
        &&& !self.not_a_number()
        &&& self.sign() || self.exponent() < 127 || self.one()
    }

    pub fn is_finite(self) -> (r: bool)
        ensures
            r == self.finite(),
    {
        self.bits % 0x8000_0000 < 0x7f80_0000
    }

    pub fn is_positive(self) -> (r: bool)
        ensures
            r == self.positive(),
    {
        0 < self.bits && self.bits <= 0x7f80_0000
    }

    pub fn is_zero(self) -> (r: bool)
        ensures
            r == self.zero(),
    {
        self.bits % 0x8000_0000 == 0
    }

    pub fn is_one(self) -> (r: bool)
        ensures
            r == self.one(),
    {
        self.bits == ONE
    }

    pub fn is_at_most_one(self) -> (r: bool)
        ensures
            r == self.at_most_one(),
    {
        self.bits <= ONE || (0x8000_0000 <= self.bits && self.bits <= 0xff80_0000)
    }
}

/// A number is finite and positive exactly if its pattern lies strictly between
/// those of zero and of infinity.
pub proof fn law_positive_range(x: Single)
    ensures
        x.finite() && x.positive() <==> 0 < x.bits < 0x7f80_0000,
{
}

/// Numbers are classified by what they are worth. A pattern whose exponent bits are
/// not all set stands for a number: `size` times two to the power of -149, negative
/// if the highest bit is set. Such a number is finite, zero if its size is, positive
/// if it is neither zero nor negative, one if its size is two to the power of 149
/// and it is not negative, and at most one if it is negative or no larger than
/// that. With all exponent bits set, a pattern without fraction bits is infinite,
/// and one with some is no number.
pub proof fn law_numbers_are_classified_by_size(x: Single)
    ensures
        ({
            let negative = x.bits >= 0x8000_0000;
            let e = (x.bits as int / 0x80_0000) % 0x100;
            let f = x.bits as int % 0x80_0000;
            let size = if e == 0 {
                f
            } else {
                (0x80_0000 + f) * pow2((e - 1) as nat)
            };
            &&& x.finite() <==> e != 0xff
            &&& e != 0xff ==> {
                &&& x.zero() <==> size == 0
                &&& x.positive() <==> !negative && size > 0
                &&& x.one() <==> !negative && size == pow2(149)
                &&& x.at_most_one() <==> negative || size <= pow2(149)
            }
            &&& e == 0xff ==> {
                &&& !x.zero()
                &&& !x.one()
                &&& x.positive() <==> !negative && f == 0
                &&& x.at_most_one() <==> negative && f == 0
            }
        }),
{
    let e = (x.bits as int / 0x80_0000) % 0x100;
    let f = x.bits as int % 0x80_0000;
    lemma2_to64();
    lemma_pow2_adds(23, 126);
    lemma_pow2_adds(24, 125);
    lemma_pow2_adds(23, 127);
    assert(pow2(149) == 0x80_0000 * pow2(126));
    assert(pow2(149) == 0x100_0000 * pow2(125));
    assert(pow2(150) == 0x80_0000 * pow2(127));
    lemma_pow2_strictly_increases(149, 150);
    if e == 0 {
        lemma_pow2_pos(125);
        assert(f < pow2(149)) by (nonlinear_arith)
            requires
                f < 0x80_0000,
                pow2(149) == 0x100_0000 * pow2(125),
                pow2(125) > 0,
        ;
    } else {
        let p = pow2((e - 1) as nat) as int;
        lemma_pow2_pos((e - 1) as nat);
        assert((0x80_0000 + f) * p > 0) by (nonlinear_arith)
            requires
                f >= 0,
                p > 0,
        ;
        if e < 127 {
            if e - 1 < 125 {
                lemma_pow2_strictly_increases((e - 1) as nat, 125);
            }
            let q = pow2(125) as int;
            assert((0x80_0000 + f) * p < 0x100_0000 * q) by (nonlinear_arith)
                requires
                    0 <= f < 0x80_0000,
                    0 < p <= q,
            ;
        } else if e > 127 {
            if 127 < e - 1 {
                lemma_pow2_strictly_increases(127, (e - 1) as nat);
            }
            let q = pow2(127) as int;
            assert((0x80_0000 + f) * p >= 0x80_0000 * q) by (nonlinear_arith)
                requires
                    0 <= f,
                    0 < q <= p,
            ;
        } else {
            assert((0x80_0000 + f) * p == 0x80_0000 * p + f * p) by (nonlinear_arith);
            assert(f > 0 ==> f * p > 0) by (nonlinear_arith)
                requires
                    p > 0,
            ;
        }
    }
}

} // verus!
