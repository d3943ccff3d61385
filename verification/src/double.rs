//! Doubles in their binary representation: the order of their values, and hours in seconds.

use std::cmp::Ordering;

use vstd::prelude::*;

verus! {

use vstd::arithmetic::power2::pow2;

/// The bit that holds the sign of a double.
pub const SIGN_BIT: u64 = 0x8000_0000_0000_0000;

/// The magnitude bits of positive infinity; larger magnitudes are not numbers.
pub const INFINITY_BITS: u64 = 0x7ff0_0000_0000_0000;

/// Two to the power of 52: the weight of the exponent, and the hidden bit of the significand.
pub const HIDDEN_BIT: u64 = 0x0010_0000_0000_0000;

/// The exponent at which the last bit of the significand stands for one.
pub const UNIT_EXPONENT: u64 = 1075;

/// Two to the power of 63: the first integer beyond the 64-bit signed ones.
pub const INTEGER_LIMIT: u64 = 0x8000_0000_0000_0000;

/// `3600 * significand`, for a significand of 53 bits, rounded to 53 significant bits: to the
/// nearest, and to the even one of two that are equally near.
pub open spec fn times_3600(significand: int) -> int {
    let product = 3600 * significand;
    // The product has 64 or 65 bits.
    let unit: int = if product < 0x1_0000_0000_0000_0000 {
        0x800
    } else {
        0x1000
    };
    let quotient = product / unit;
    let remainder = product % unit;
    if 2 * remainder > unit || (2 * remainder == unit && quotient % 2 == 1) {
        (quotient + 1) * unit
    } else {
        quotient * unit
    }
}

/// A double-precision number, held as its IEEE 754 bit pattern.
#[derive(Clone, Copy, Debug, PartialEq, Eq, Structural, Hash)]
pub struct Double {
    pub bits: u64,
}

impl Double {
    /// The bits below the sign bit.
    pub open spec fn magnitude(self) -> int {
        if self.bits >= SIGN_BIT {
            self.bits - SIGN_BIT
        } else {
            self.bits as int
        }
    }

    /// Whether the pattern stands for no number.
    pub open spec fn is_nan(self) -> bool {
        self.magnitude() > INFINITY_BITS
    }

    /// An integer that orders numbers as their values: magnitudes grow with the value, and both
    /// zeros have rank 0.
    pub open spec fn rank(self) -> int {
        if self.bits >= SIGN_BIT {
            -self.magnitude()
        } else {
            self.magnitude()
        }
    }

    /// Whether both are numbers and the value of `self` is the smaller one.
    pub open spec fn less(self, other: Double) -> bool {
        !self.is_nan() && !other.is_nan() && self.rank() < other.rank()
    }

    /// The biased exponent: zero below the normal numbers, and 2047 for infinities.
    pub open spec fn exponent(self) -> int {
        self.magnitude() / (HIDDEN_BIT as int)
    }

    /// The significand of a normal number, an integer of 53 bits.
    pub open spec fn significand(self) -> int {
        self.magnitude() % (HIDDEN_BIT as int) + HIDDEN_BIT
    }

    /// The number taken as hours, in whole seconds: the product with 3600 in double precision,
    /// cut toward zero and held within the 64-bit signed integers. No number gives zero seconds.
    pub open spec fn hours_as_seconds(self) -> int {
        let size: int = if self.is_nan() || self.exponent() == 0 {
            0
        } else if self.exponent() >= UNIT_EXPONENT {
            INTEGER_LIMIT as int
        } else {
            times_3600(self.significand()) / (pow2((UNIT_EXPONENT - self.exponent()) as nat) as int)
        };
        if self.bits >= SIGN_BIT {
            if size >= INTEGER_LIMIT {
                -INTEGER_LIMIT
            } else {
                -size
            }
        } else {
            if size >= INTEGER_LIMIT {
                INTEGER_LIMIT - 1
            } else {
                size
            }
        }
    }

    /// How two numbers compare: by value, and as equal where either is not a number.
    pub open spec fn ordering(self, other: Double) -> Ordering {
        if self.less(other) {
            Ordering::Less
        } else if other.less(self) {
            Ordering::Greater
        } else {
            Ordering::Equal
        }
    }

    /// Zero.
    pub fn zero() -> (number: Double)
        ensures
            number == (Double { bits: 0 }),
    {
        Double { bits: 0 }
    }

    fn exec_rank(&self) -> (rank: i64)
        ensures
            rank == self.rank(),
    {
        if self.bits >= SIGN_BIT {
            -((self.bits - SIGN_BIT) as i64)
        } else {
            self.bits as i64
        }
    }

    fn exec_is_nan(&self) -> (r: bool)
        ensures
            r == self.is_nan(),
    {
        let magnitude: u64 = if self.bits >= SIGN_BIT {
            self.bits - SIGN_BIT
        } else {
            self.bits
        };
        magnitude > INFINITY_BITS
    }

    /// The number taken as hours, in whole seconds.
    pub fn seconds(&self) -> (seconds: i64)
        ensures
            seconds == self.hours_as_seconds(),
    {
        let negative = self.bits >= SIGN_BIT;
        let magnitude: u64 = if negative {
            self.bits - SIGN_BIT
        } else {
            self.bits
        };
        let exponent: u64 = magnitude / HIDDEN_BIT;
        let size: u128 = if magnitude > INFINITY_BITS || exponent == 0 {
            0
        } else if exponent >= UNIT_EXPONENT {
            INTEGER_LIMIT as u128
        } else {
            let significand: u64 = magnitude % HIDDEN_BIT + HIDDEN_BIT;
            halved(rounded_product(significand), UNIT_EXPONENT - exponent)
        };
        if size >= INTEGER_LIMIT as u128 {
            if negative {
                i64::MIN
            } else {
                i64::MAX
            }
        } else if negative {
            -(size as i64)
        } else {
            size as i64
        }
    }

    /// Compares by value; what is not a number is equal to everything.
    pub fn compare(&self, other: &Double) -> (ordering: Ordering)
        ensures
            ordering == self.ordering(*other),
    {
        if self.exec_is_nan() || other.exec_is_nan() {
            Ordering::Equal
        } else if self.exec_rank() < other.exec_rank() {
            Ordering::Less
        } else if other.exec_rank() < self.exec_rank() {
            Ordering::Greater
        } else {
            Ordering::Equal
        }
    }
}

/// `3600 * significand` rounded to 53 significant bits.
fn rounded_product(significand: u64) -> (product: u128)
    requires
        HIDDEN_BIT <= significand < 2 * HIDDEN_BIT,
    ensures
        product == times_3600(significand as int),
{
    let product: u128 = 3600 * (significand as u128);
    let unit: u128 = if product < 0x1_0000_0000_0000_0000 {
        0x800
    } else {
        0x1000
    };
    let quotient: u128 = product / unit;
    let remainder: u128 = product % unit;
    if 2 * remainder > unit || (2 * remainder == unit && quotient % 2 == 1) {
        (quotient + 1) * unit
    } else {
        quotient * unit
    }
}

/// `n` divided by two `times` times.
fn halved(n: u128, times: u64) -> (result: u128)
    ensures
        result == n as int / (pow2(times as nat) as int),
{
    let mut value: u128 = n;
    let mut left: u64 = times;
    while left > 0
        invariant
            n as int / (pow2(times as nat) as int) == value as int / (pow2(left as nat) as int),
        decreases left,
    {
        proof {
            vstd::arithmetic::power2::lemma_pow2_unfold(left as nat);
            vstd::arithmetic::power2::lemma_pow2_pos((left - 1) as nat);
            vstd::arithmetic::div_mod::lemma_div_denominator(
                value as int,
                2,
                pow2((left - 1) as nat) as int,
            );
        }
        value = value / 2;
        left = left - 1;
    }
    assert(pow2(left as nat) == 1) by {
        vstd::arithmetic::power2::lemma2_to64();
    }
    value
}

} // verus!
