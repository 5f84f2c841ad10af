//! Exact scale factors for brightness and contrast.
//!
//! A factor is a binary fraction, so every finite single-precision value is
//! one of them, and the scaling of a channel is carried out without rounding
//! until the one step that rounds down to a whole channel value.

use vstd::prelude::*;
use vstd::arithmetic::mul::lemma_mul_is_associative;
use vstd::arithmetic::power2::{
    lemma2_to64, lemma2_to64_rest, lemma_pow2_pos, lemma_pow2_strictly_increases, pow2,
};
use crate::arith::{lemma_floor_bounds, lemma_floor_is, lemma_floor_of_floor, power_of_two};
use crate::error::ImageError;

verus! {

/// The number `mantissa * 2^exponent`, negated where `negative` is set.
///
/// Every combination of fields is a number; several may be the same one
/// (`1 * 2^1` and `2 * 2^0`).
#[derive(Clone, Copy, Debug, PartialEq, Eq, Structural)]
pub struct Factor {
    pub negative: bool,
    pub mantissa: u32,
    pub exponent: i32,
}

/// A channel value brought back into `0..=255`.
pub open spec fn clamped(x: int) -> int {
    if x < 0 {
        0
    } else if x > 255 {
        255
    } else {
        x
    }
}

/// `value * by`, rounded down and clamped.
pub open spec fn brightened(value: u8, by: Factor) -> int {
    clamped(by.times(value as int))
}

/// `((value / 255 - 1/2) * by + 1/2) * 255`, rounded down and clamped. Over the
/// common denominator that is `((2 value - 255) * by + 255) / 2`.
pub open spec fn contrasted(value: u8, by: Factor) -> int {
    clamped(((2 * value - 255) * by.numerator() + 255 * by.denominator()) / (2 * by.denominator()))
}

/// The 256 channel values after scaling by `by`.
pub open spec fn brightness_levels(by: Factor) -> Seq<u8> {
    Seq::new(256, |v: int| brightened(v as u8, by) as u8)
}

/// The 256 channel values after stretching about mid-gray by `by`.
pub open spec fn contrast_levels(by: Factor) -> Seq<u8> {
    Seq::new(256, |v: int| contrasted(v as u8, by) as u8)
}

/// Beyond this a scaled channel is clamped whatever its exact value.
const CUT: i64 = 0x10_0000;

/// A number held within `-2^20..=2^20`, far enough out that a channel cannot
/// tell the difference.
spec fn cut(x: int) -> int {
    if x < -CUT {
        -CUT as int
    } else if x > CUT {
        CUT as int
    } else {
        x
    }
}

/// Computes [`clamped`].
fn clamp(x: i64) -> (out: u8)
    ensures
        out == clamped(x as int),
{
    if x < 0 {
        0
    } else if x > 255 {
        255
    } else {
        x as u8
    }
}

/// Computes [`cut`].
fn cut_off(x: i64) -> (out: i64)
    ensures
        out == cut(x as int),
{
    if x < -CUT {
        -CUT
    } else if x > CUT {
        CUT
    } else {
        x
    }
}

impl Factor {
    /// The mantissa with the factor's sign.
    pub open spec fn signed_mantissa(self) -> int {
        if self.negative {
            -(self.mantissa as int)
        } else {
            self.mantissa as int
        }
    }

    /// The factor is `numerator() / denominator()`.
    pub open spec fn numerator(self) -> int {
        if self.exponent >= 0 {
            self.signed_mantissa() * pow2(self.exponent as nat)
        } else {
            self.signed_mantissa()
        }
    }

    /// A positive power of two; see [`Factor::numerator`].
    pub open spec fn denominator(self) -> int {
        if self.exponent >= 0 {
            1
        } else {
            pow2((-self.exponent) as nat) as int
        }
    }

    /// Whether the factor is the whole number `n`.
    pub open spec fn is_whole(self, n: int) -> bool {
        self.numerator() == n * self.denominator()
    }

    /// How a 32-bit pattern in the IEEE 754 single-precision layout reads as a
    /// factor: one sign bit, eight exponent bits biased by 127, 23 fraction bits.
    /// Infinities and not-a-number patterns (all exponent bits set) are no factor.
    pub open spec fn of_bits(bits: u32) -> Option<Factor> {
        let negative = bits / 0x8000_0000 == 1;
        let biased = (bits / 0x80_0000) % 0x100;
        let fraction = bits % 0x80_0000;
        if biased == 0xff {
            None
        } else if biased == 0 {
            Some(Factor { negative, mantissa: fraction as u32, exponent: -149i32 })
        } else {
            Some(
                Factor {
                    negative,
                    mantissa: (fraction + 0x80_0000) as u32,
                    exponent: (biased - 150) as i32,
                },
            )
        }
    }

    /// Reads a single-precision bit pattern; `None` for an infinity or a
    /// not-a-number. The factor has exactly the value the pattern stands for.
    pub fn from_bits(bits: u32) -> (out: Option<Factor>)
        ensures
            out == Factor::of_bits(bits),
    {
        let negative: bool = bits / 0x8000_0000 == 1;
        let biased: u32 = (bits / 0x80_0000) % 0x100;
        let fraction: u32 = bits % 0x80_0000;
        if biased == 0xff {
            None
        } else if biased == 0 {
            Some(Factor { negative, mantissa: fraction, exponent: -149 })
        } else {
            Some(Factor { negative, mantissa: fraction + 0x80_0000, exponent: biased as i32 - 150 })
        }
    }

    /// Reads a single-precision bit pattern that has to be a number: an
    /// infinity or a not-a-number is an error.
    pub fn finite(bits: u32) -> (out: Result<Factor, ImageError>)
        ensures
            match out {
                Ok(factor) => Factor::of_bits(bits) == Some(factor),
                Err(e) => {
                    &&& Factor::of_bits(bits) is None
                    &&& e is OperationError
                    &&& e.text() == "Parameter is not a finite number"@
                },
            },
    {
        match Factor::from_bits(bits) {
            Some(factor) => Ok(factor),
            None => Err(ImageError::OperationError("Parameter is not a finite number".to_string())),
        }
    }

    /// Reads a single-precision bit pattern that has to be a number greater
    /// than zero, as the radius of a blur has to be.
    pub fn positive(bits: u32) -> (out: Result<Factor, ImageError>)
        ensures
            match out {
                Ok(factor) => Factor::of_bits(bits) == Some(factor) && factor.numerator() > 0,
                Err(e) => {
                    &&& Factor::of_bits(bits) matches Some(factor) ==> factor.numerator() <= 0
                    &&& e is OperationError
                    &&& e.text() == "Parameter is not a positive number"@
                },
            },
    {
        match Factor::from_bits(bits) {
            Some(factor) => {
                if factor.is_positive() {
                    return Ok(factor);
                }
            },
            None => {},
        }
        Err(ImageError::OperationError("Parameter is not a positive number".to_string()))
    }

    /// Whether the factor is greater than zero.
    pub fn is_positive(self) -> (out: bool)
        ensures
            out == (self.numerator() > 0),
    {
        proof {
            if self.exponent >= 0 {
                let scale = pow2(self.exponent as nat) as int;
                lemma_pow2_pos(self.exponent as nat);
                let m = self.signed_mantissa();
                assert(m > 0 ==> m * scale > 0) by (nonlinear_arith)
                    requires scale > 0;
                assert(m <= 0 ==> m * scale <= 0) by (nonlinear_arith)
                    requires scale > 0;
            }
        }
        !self.negative && self.mantissa > 0
    }

    /// `a * self`, rounded down.
    pub open spec fn times(self, a: int) -> int {
        (a * self.numerator()) / self.denominator()
    }

    /// Computes [`Factor::times`] for the multiples that a channel can ask
    /// for, in 64-bit arithmetic. The channels stop at 255, so whatever lies
    /// beyond `2^20` on either side is cut off there rather than computed.
    fn times_cut(self, a: i32) -> (out: i64)
        requires
            -255 <= a <= 255,
        ensures
            out == cut(self.times(a as int)),
    {
        let m: i64 = if self.negative { -(self.mantissa as i64) } else { self.mantissa as i64 };
        assert(-0x100_0000_0000 < a * m < 0x100_0000_0000) by (nonlinear_arith)
            requires -255 <= a <= 255, -0xffff_ffff <= m <= 0xffff_ffff;
        let n: i64 = a as i64 * m;
        if self.exponent >= 0 {
            let ghost scale = pow2(self.exponent as nat) as int;
            let ghost exact: int = n * scale;
            proof {
                lemma_pow2_pos(self.exponent as nat);
                lemma_mul_is_associative(a as int, m as int, scale);
                assert(self.times(a as int) == exact);
            }
            if n == 0 {
                assert(exact == 0) by (nonlinear_arith)
                    requires n == 0, exact == n * scale;
                0
            } else if self.exponent >= 20 {
                proof {
                    lemma2_to64();
                    if self.exponent > 20 {
                        lemma_pow2_strictly_increases(20, self.exponent as nat);
                    }
                    assert(n >= 1 ==> exact >= 0x10_0000) by (nonlinear_arith)
                        requires scale >= 0x10_0000, exact == n * scale;
                    assert(n <= -1 ==> exact <= -0x10_0000) by (nonlinear_arith)
                        requires scale >= 0x10_0000, exact == n * scale;
                }
                if n > 0 {
                    CUT
                } else {
                    -CUT
                }
            } else {
                let p: i64 = power_of_two(self.exponent as u32);
                proof {
                    lemma2_to64();
                    if self.exponent < 19 {
                        lemma_pow2_strictly_increases(self.exponent as nat, 19);
                    }
                }
                assert(-0x1000_0000_0000_0000 < n * p < 0x1000_0000_0000_0000) by (nonlinear_arith)
                    requires -0x100_0000_0000 < n < 0x100_0000_0000, 1 <= p <= 0x8_0000;
                cut_off(n * p)
            }
        } else {
            let k: i64 = -(self.exponent as i64);
            let ghost big = pow2(k as nat) as int;
            proof {
                lemma_pow2_pos(k as nat);
                assert(self.times(a as int) == (n as int) / big);
            }
            if k >= 41 {
                proof {
                    lemma2_to64_rest();
                    if k > 41 {
                        lemma_pow2_strictly_increases(41, k as nat);
                    }
                    if n >= 0 {
                        lemma_floor_is(n as int, big, 0);
                    } else {
                        lemma_floor_is(n as int, big, -1);
                    }
                }
                if n >= 0 {
                    0
                } else {
                    -1
                }
            } else {
                let p: i64 = power_of_two(k as u32);
                proof {
                    lemma2_to64_rest();
                    if k < 40 {
                        lemma_pow2_strictly_increases(k as nat, 40);
                    }
                }
                if n >= 0 {
                    cut_off(n / p)
                } else {
                    let up: i64 = (-n + p - 1) / p;
                    proof {
                        lemma_floor_bounds(-n + p - 1, p as int);
                        assert((-up) * p == -(up * p)) by (nonlinear_arith);
                        lemma_floor_is(n as int, p as int, -up as int);
                    }
                    cut_off(-up)
                }
            }
        }
    }

    /// Computes [`brightened`].
    pub fn brighten(self, value: u8) -> (out: u8)
        ensures
            out == brightened(value, self),
    {
        clamp(self.times_cut(value as i32))
    }

    /// Computes [`contrasted`].
    pub fn contrast(self, value: u8) -> (out: u8)
        ensures
            out == contrasted(value, self),
    {
        let spread: i64 = self.times_cut(2 * (value as i32) - 255);
        proof {
            let d = self.denominator();
            if self.exponent < 0 {
                lemma_pow2_pos((-self.exponent) as nat);
            }
            let n = (2 * value - 255) * self.numerator();
            lemma_floor_of_floor(n, 255, d, 2);
            assert(255 * d == d * 255 && 2 * d == d * 2) by (nonlinear_arith);
        }
        let sum: i64 = spread + 255;
        if sum < 0 {
            0
        } else {
            clamp(sum / 2)
        }
    }

    /// Computes [`brightness_levels`].
    pub(crate) fn brightness_table(self) -> (table: Vec<u8>)
        ensures
            table@ == brightness_levels(self),
    {
        let mut table: Vec<u8> = Vec::with_capacity(256);
        let mut v: u16 = 0;
        while v < 256
            invariant
                v <= 256,
                table@.len() == v,
                forall|i: int| 0 <= i < v ==> table@[i] == brightened(i as u8, self),
            decreases 256 - v,
        {
            table.push(self.brighten(v as u8));
            v = v + 1;
        }
        assert(table@ =~= brightness_levels(self));
        table
    }

    /// Computes [`contrast_levels`].
    pub(crate) fn contrast_table(self) -> (table: Vec<u8>)
        ensures
            table@ == contrast_levels(self),
    {
        let mut table: Vec<u8> = Vec::with_capacity(256);
        let mut v: u16 = 0;
        while v < 256
            invariant
                v <= 256,
                table@.len() == v,
                forall|i: int| 0 <= i < v ==> table@[i] == contrasted(i as u8, self),
            decreases 256 - v,
        {
            table.push(self.contrast(v as u8));
            v = v + 1;
        }
        assert(table@ =~= contrast_levels(self));
        table
    }
}

} // verus!
