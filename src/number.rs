use vstd::arithmetic::power2::{
    lemma2_to64, lemma2_to64_rest, lemma_pow2_pos, lemma_pow2_strictly_increases, pow2,
};
use vstd::bits::{lemma_u64_shl_is_mul, lemma_u64_shr_is_div};
use vstd::prelude::*;

verus! {

/// An IEEE-754 binary64 value, held as its bit pattern.
#[derive(Clone, Copy, Debug, PartialEq, Eq, Structural)]
pub struct FloatBits(pub u64);

/// A scalar: the element type returned by full indexing and the bound type of
/// the generators.
#[derive(Clone, Copy, Debug, PartialEq, Eq, Structural)]
pub enum Number {
    Int(i64),
    Float(FloatBits),
}

impl FloatBits {
    /// Not a number: all exponent bits set and a non-zero fraction.
    pub open spec fn is_nan(self) -> bool {
        (self.0 >> 52u64) & 0x7ffu64 == 0x7ffu64 && self.0 & 0xf_ffff_ffff_ffffu64 != 0
    }

    /// Positive or negative zero.
    pub open spec fn is_zero(self) -> bool {
        self.0 & 0x7fff_ffff_ffff_ffffu64 == 0
    }

    /// IEEE-754 equality: no NaN equals anything, the two zeros are equal,
    /// and otherwise equal values have equal bit patterns.
    pub open spec fn spec_float_eq(self, other: FloatBits) -> bool {
        !self.is_nan() && !other.is_nan() && (self.0 == other.0 || (self.is_zero()
            && other.is_zero()))
    }

    /// The value truncated toward zero and clamped to the `i64` range, as
    /// Rust's float-to-integer `as` gives it; NaN gives zero.
    pub open spec fn spec_trunc(self) -> i64 {
        let exp = ((self.0 >> 52u64) & 0x7ffu64) as nat;
        let frac = (self.0 & 0xf_ffff_ffff_ffffu64) as nat;
        let neg = self.0 >> 63u64 == 1;
        if exp == 0x7ff && frac != 0 {
            0
        } else if exp == 0x7ff {
            if neg {
                i64::MIN
            } else {
                i64::MAX
            }
        } else if exp == 0 {
            0
        } else {
            let m = frac + pow2(52);
            let mag: int = if exp >= 1075 {
                (m * pow2((exp - 1075) as nat)) as int
            } else {
                (m / pow2((1075 - exp) as nat)) as int
            };
            let v = if neg {
                -mag
            } else {
                mag
            };
            if v > i64::MAX {
                i64::MAX
            } else if v < i64::MIN {
                i64::MIN
            } else {
                v as i64
            }
        }
    }

    /// The value truncated toward zero, saturating at the `i64` bounds.
    pub fn trunc(self) -> (r: i64)
        ensures
            r == self.spec_trunc(),
    {
        let bits = self.0;
        let exp = (bits >> 52u64) & 0x7ffu64;
        let frac = bits & 0xf_ffff_ffff_ffffu64;
        let neg = bits >> 63u64 == 1;
        if exp == 0x7ff {
            if frac != 0 {
                0
            } else if neg {
                i64::MIN
            } else {
                i64::MAX
            }
        } else if exp == 0 {
            0
        } else {
            assert(frac <= 0xf_ffff_ffff_ffffu64) by (bit_vector)
                requires
                    frac == bits & 0xf_ffff_ffff_ffffu64,
            ;
            assert(exp <= 0x7ffu64) by (bit_vector)
                requires
                    exp == (bits >> 52u64) & 0x7ffu64,
            ;
            proof {
                lemma2_to64();
                lemma2_to64_rest();
            }
            let m: u64 = frac + 0x10_0000_0000_0000u64;
            if exp >= 1075 {
                let sh = exp - 1075;
                if sh >= 11 {
                    proof {
                        if sh > 11 {
                            lemma_pow2_strictly_increases(11, sh as nat);
                        }
                        let p = pow2(sh as nat);
                        assert(m * p >= 0x10_0000_0000_0000 * 2048) by (nonlinear_arith)
                            requires
                                m >= 0x10_0000_0000_0000,
                                p >= 2048,
                        ;
                    }
                    if neg {
                        i64::MIN
                    } else {
                        i64::MAX
                    }
                } else {
                    proof {
                        if sh < 10 {
                            lemma_pow2_strictly_increases(sh as nat, 10);
                        }
                        let p = pow2(sh as nat);
                        assert(m * p < 0x8000_0000_0000_0000) by (nonlinear_arith)
                            requires
                                m < 0x20_0000_0000_0000,
                                p <= 1024,
                        ;
                        lemma_u64_shl_is_mul(m, sh);
                    }
                    let mag: u64 = m << sh;
                    if neg {
                        -(mag as i64)
                    } else {
                        mag as i64
                    }
                }
            } else {
                let sh = 1075 - exp;
                if sh >= 64 {
                    proof {
                        lemma_pow2_strictly_increases(53, sh as nat);
                        let p = pow2(sh as nat);
                        assert(m as nat / p == 0) by (nonlinear_arith)
                            requires
                                m < p,
                        ;
                    }
                    0
                } else {
                    proof {
                        lemma_u64_shr_is_div(m, sh);
                        lemma_pow2_pos(sh as nat);
                        assert(m as nat / pow2(sh as nat) <= m) by (nonlinear_arith)
                            requires
                                pow2(sh as nat) >= 1,
                        ;
                    }
                    let mag: u64 = m >> sh;
                    if neg {
                        -(mag as i64)
                    } else {
                        mag as i64
                    }
                }
            }
        }
    }

    /// IEEE-754 equality of two floats.
    pub fn float_eq(self, other: FloatBits) -> (r: bool)
        ensures
            r == self.spec_float_eq(other),
    {
        let a_nan = (self.0 >> 52u64) & 0x7ffu64 == 0x7ffu64 && self.0 & 0xf_ffff_ffff_ffffu64 != 0;
        let b_nan = (other.0 >> 52u64) & 0x7ffu64 == 0x7ffu64 && other.0 & 0xf_ffff_ffff_ffffu64
            != 0;
        let a_zero = self.0 & 0x7fff_ffff_ffff_ffffu64 == 0;
        let b_zero = other.0 & 0x7fff_ffff_ffff_ffffu64 == 0;
        !a_nan && !b_nan && (self.0 == other.0 || (a_zero && b_zero))
    }
}

impl Number {
    /// The number as an integer: a float is truncated toward zero and
    /// saturates at the `i64` bounds, NaN becoming zero.
    pub open spec fn spec_to_i64(self) -> i64 {
        match self {
            Number::Int(i) => i,
            Number::Float(f) => f.spec_trunc(),
        }
    }
}

impl From<Number> for i64 {
    fn from(num: Number) -> (r: i64) {
        match num {
            Number::Int(i) => i,
            Number::Float(f) => f.trunc(),
        }
    }
}

impl vstd::std_specs::convert::FromSpecImpl<Number> for i64 {
    open spec fn obeys_from_spec() -> bool {
        true
    }

    open spec fn from_spec(v: Number) -> i64 {
        v.spec_to_i64()
    }
}

} // verus!
