//! IEEE 754 binary32 numbers, held as their 32-bit encodings.
//!
//! A datum is one sign bit, eight exponent bits and twenty-three fraction
//! bits. Every datum that is not a NaN stands for a number that is a whole
//! multiple of 2^-149, or for an infinity. The contracts here speak of that
//! number, counted in units of 2^-149; the code works on the encoding.

use vstd::prelude::*;
use vstd::arithmetic::power2::pow2;

verus! {

/// One binary32 datum.
///
/// `==` compares encodings: it tells `+0` from `-0` and finds a NaN equal to
/// itself. The numeric comparisons are `lt` and `gt`.
#[derive(Clone, Copy, Debug, PartialEq, Eq, Structural)]
pub struct Binary32 {
    pub bits: u32,
}

impl Binary32 {
    /// Whether the sign bit is set.
    pub open spec fn sign_bit(self) -> bool {
        self.bits >= 0x8000_0000
    }

    /// The encoding without its sign bit.
    pub open spec fn magnitude_bits(self) -> nat {
        if self.bits >= 0x8000_0000 {
            (self.bits - 0x8000_0000) as nat
        } else {
            self.bits as nat
        }
    }

    /// The eight exponent bits, read as a number.
    pub open spec fn biased_exponent(self) -> nat {
        self.magnitude_bits() / 0x80_0000
    }

    /// The twenty-three fraction bits, read as a number.
    pub open spec fn fraction(self) -> nat {
        self.magnitude_bits() % 0x80_0000
    }

    /// A NaN has all exponent bits set and a fraction that is not zero.
    pub open spec fn is_nan_spec(self) -> bool {
        self.biased_exponent() == 255 && self.fraction() != 0
    }

    /// The absolute value in units of 2^-149.
    ///
    /// Subnormal data count their fraction; normal data add the hidden bit
    /// and scale by the exponent. An infinity comes out as 2^277, above
    /// every finite datum. Of a NaN the result means nothing.
    pub open spec fn magnitude(self) -> nat {
        if self.biased_exponent() == 0 {
            self.fraction()
        } else {
            (0x80_0000 + self.fraction()) * pow2((self.biased_exponent() - 1) as nat)
        }
    }

    /// The number in units of 2^-149. Both zeros are 0.
    pub open spec fn value(self) -> int {
        if self.sign_bit() {
            -(self.magnitude() as int)
        } else {
            self.magnitude() as int
        }
    }

    /// Numeric `<`: false as soon as either side is a NaN.
    pub open spec fn lt_spec(self, other: Binary32) -> bool {
        !self.is_nan_spec() && !other.is_nan_spec() && self.value() < other.value()
    }

    /// Numeric `>`: false as soon as either side is a NaN.
    pub open spec fn gt_spec(self, other: Binary32) -> bool {
        other.lt_spec(self)
    }

    /// Numeric equality with zero; holds of `+0` and `-0` alone.
    pub open spec fn is_zero_spec(self) -> bool {
        !self.is_nan_spec() && self.value() == 0
    }

    /// The datum with the other sign bit and the same remaining bits.
    pub open spec fn neg_spec(self) -> Binary32 {
        Binary32 {
            bits: if self.bits >= 0x8000_0000 {
                (self.bits - 0x8000_0000) as u32
            } else {
                (self.bits + 0x8000_0000) as u32
            },
        }
    }

    /// Positive zero.
    pub open spec fn zero_spec() -> Binary32 {
        Binary32 { bits: 0 }
    }

    /// The datum with the given encoding.
    pub fn from_bits(bits: u32) -> (r: Binary32)
        ensures
            r.bits == bits,
    {
        Binary32 { bits }
    }

    /// The encoding of the datum.
    pub fn to_bits(self) -> (r: u32)
        ensures
            r == self.bits,
    {
        self.bits
    }

    /// Positive zero.
    #[verifier::when_used_as_spec(zero_spec)]
    pub fn zero() -> (r: Binary32)
        ensures
            r == Binary32::zero_spec(),
    {
        Binary32 { bits: 0 }
    }

    /// The encoding with the sign bit cleared.
    fn cleared_sign(self) -> (m: u32)
        ensures
            m as nat == self.magnitude_bits(),
    {
        let bits: u32 = self.bits;
        assert(bits & 0x7fff_ffff == if bits >= 0x8000_0000 {
            (bits - 0x8000_0000) as u32
        } else {
            bits
        }) by (bit_vector);
        bits & 0x7fff_ffff
    }

    /// Whether the datum is a NaN.
    #[verifier::when_used_as_spec(is_nan_spec)]
    pub fn is_nan(self) -> (r: bool)
        ensures
            r == self.is_nan_spec(),
    {
        self.cleared_sign() > 0x7f80_0000
    }

    /// Whether the datum is one of the two zeros.
    #[verifier::when_used_as_spec(is_zero_spec)]
    pub fn is_zero(self) -> (r: bool)
        ensures
            r == self.is_zero_spec(),
    {
        proof {
            lemma_encoding_order(Binary32::zero_spec(), self);
        }
        self.cleared_sign() == 0
    }

    /// Numeric `<`.
    #[verifier::when_used_as_spec(lt_spec)]
    pub fn lt(self, other: Binary32) -> (r: bool)
        ensures
            r == self.lt_spec(other),
    {
        if self.is_nan() || other.is_nan() {
            return false;
        }
        let a: u32 = self.cleared_sign();
        let b: u32 = other.cleared_sign();
        proof {
            lemma_encoding_order(self, other);
            lemma_encoding_order(other, self);
            lemma_encoding_order(Binary32::zero_spec(), self);
            lemma_encoding_order(Binary32::zero_spec(), other);
        }
        if self.bits >= 0x8000_0000 {
            if other.bits >= 0x8000_0000 {
                b < a
            } else {
                a != 0 || b != 0
            }
        } else {
            if other.bits >= 0x8000_0000 {
                false
            } else {
                a < b
            }
        }
    }

    /// Numeric `>`.
    #[verifier::when_used_as_spec(gt_spec)]
    pub fn gt(self, other: Binary32) -> (r: bool)
        ensures
            r == self.gt_spec(other),
    {
        other.lt(self)
    }

    /// The datum with the sign bit flipped.
    #[verifier::when_used_as_spec(neg_spec)]
    pub fn negated(self) -> (r: Binary32)
        ensures
            r == self.neg_spec(),
    {
        let bits: u32 = self.bits;
        assert(bits ^ 0x8000_0000 == if bits >= 0x8000_0000 {
            (bits - 0x8000_0000) as u32
        } else {
            (bits + 0x8000_0000) as u32
        }) by (bit_vector);
        Binary32 { bits: bits ^ 0x8000_0000 }
    }
}

/// Among data of one sign the encodings are ordered as the absolute values
/// are: the one with the smaller remaining bits has the smaller magnitude.
pub proof fn lemma_encoding_order(a: Binary32, b: Binary32)
    ensures
        a.magnitude_bits() < b.magnitude_bits() <==> a.magnitude() < b.magnitude(),
        a.magnitude_bits() == b.magnitude_bits() <==> a.magnitude() == b.magnitude(),
{
    if a.magnitude_bits() < b.magnitude_bits() {
        lemma_magnitude_increases(a, b);
    } else if b.magnitude_bits() < a.magnitude_bits() {
        lemma_magnitude_increases(b, a);
    }
}

/// Flipping the sign bit negates the number, keeps a NaN a NaN, and undoes
/// itself when done twice.
pub proof fn lemma_neg(a: Binary32)
    ensures
        a.neg_spec().value() == -a.value(),
        a.neg_spec().magnitude_bits() == a.magnitude_bits(),
        a.neg_spec().sign_bit() != a.sign_bit(),
        a.neg_spec().is_nan_spec() == a.is_nan_spec(),
        a.neg_spec().neg_spec() == a,
{
}

/// A datum with exponent bits `e` lies in the binade that starts at
/// 2^23 * 2^(e - 1) and ends before twice that.
proof fn lemma_binade(a: Binary32)
    requires
        a.biased_exponent() >= 1,
    ensures
        0x80_0000 * pow2((a.biased_exponent() - 1) as nat) <= a.magnitude(),
        a.magnitude() < 0x80_0000 * pow2(a.biased_exponent()),
{
    let e = a.biased_exponent();
    let f = a.fraction();
    let p = pow2((e - 1) as nat) as int;
    vstd::arithmetic::power2::lemma_pow2_pos((e - 1) as nat);
    vstd::arithmetic::power2::lemma_pow2_unfold(e);
    assert(pow2(e) == 2 * p);
    assert(0x80_0000 * p <= (0x80_0000 + f) * p && (0x80_0000 + f) * p < 0x80_0000 * (2 * p))
        by (nonlinear_arith)
        requires
            0 <= f < 0x80_0000,
            p > 0,
    ;
}

proof fn lemma_magnitude_increases(a: Binary32, b: Binary32)
    requires
        a.magnitude_bits() < b.magnitude_bits(),
    ensures
        a.magnitude() < b.magnitude(),
{
    let ea = a.biased_exponent();
    let eb = b.biased_exponent();
    let fa = a.fraction() as int;
    let fb = b.fraction() as int;
    assert(ea <= eb);
    if ea == eb {
        assert(fa < fb);
        if ea >= 1 {
            let p = pow2((ea - 1) as nat) as int;
            vstd::arithmetic::power2::lemma_pow2_pos((ea - 1) as nat);
            assert((0x80_0000 + fa) * p < (0x80_0000 + fb) * p) by (nonlinear_arith)
                requires
                    fa < fb,
                    p > 0,
            ;
        }
    } else {
        lemma_binade(b);
        let q = pow2((eb - 1) as nat) as int;
        if ea >= 1 {
            lemma_binade(a);
            if ea < eb - 1 {
                vstd::arithmetic::power2::lemma_pow2_strictly_increases(ea, (eb - 1) as nat);
            }
            let p = pow2(ea) as int;
            assert(p <= q);
            assert(0x80_0000 * p <= 0x80_0000 * q) by (nonlinear_arith)
                requires
                    p <= q,
            ;
        } else {
            vstd::arithmetic::power2::lemma_pow2_pos((eb - 1) as nat);
            assert(0x80_0000 <= 0x80_0000 * q) by (nonlinear_arith)
                requires
                    q >= 1,
            ;
        }
    }
}

} // verus!
